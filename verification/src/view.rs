//! Viewing entries: the line that separates two entries shown one after
//! the other.

use vstd::prelude::*;
use vstd::utf8::encode_utf8;
use crate::text::append_str;

verus! {

/// `s` written `n` times.
pub open spec fn repeated(s: Seq<char>, n: nat) -> Seq<char>
    decreases n,
{
    if n == 0 {
        Seq::empty()
    } else {
        repeated(s, (n - 1) as nat) + s
    }
}

/// The separator between two entries: `sep` repeated as often as its length
/// in bytes fits in `width`.
pub fn build_seperator(sep: &str, width: usize) -> (res: String)
    requires
        encode_utf8(sep@).len() > 0,
    ensures
        res@ == repeated(sep@, (width as nat / encode_utf8(sep@).len()) as nat),
{
    let len = sep.as_bytes().len();
    let n = width / len;
    let mut res = String::new();
    let mut k: usize = 0;
    while k < n
        invariant
            k <= n,
            res@ == repeated(sep@, k as nat),
        decreases n - k,
    {
        append_str(&mut res, sep);
        k = k + 1;
    }
    res
}

} // verus!
