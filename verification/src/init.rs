//! The configuration file that `imag-init` writes into a new imag directory.
//!
//! The template is the development configuration; the default configuration
//! is the template with the log level lowered from `debug` to `info`.

use vstd::prelude::*;
use crate::text::{agree, lemma_replace_all_removes, occurs_at, replace, replace_all};

verus! {

/// The development configuration: the template as it is.
pub fn get_config_devel(imagrc: &str) -> (res: String)
    ensures
        res@ == imagrc@,
{
    imagrc.to_owned()
}

/// The default configuration: every `level = "debug"` of the template
/// replaced by `level = "info"`.
pub fn get_config(imagrc: &str) -> (res: String)
    ensures
        res@ == replace_all(imagrc@, "level = \"debug\""@, "level = \"info\""@),
{
    let devel = get_config_devel(imagrc);
    proof {
        reveal_strlit("level = \"debug\"");
    }
    replace(devel.as_str(), "level = \"debug\"", "level = \"info\"")
}

/// No `level = "debug"` is left in the default configuration, whatever the
/// template holds.
pub proof fn law_release_config_has_no_debug_level(imagrc: Seq<char>, i: int)
    ensures
        !occurs_at(
            replace_all(imagrc, "level = \"debug\""@, "level = \"info\""@),
            "level = \"debug\""@,
            i,
        ),
{
    reveal_strlit("level = \"debug\"");
    reveal_strlit("level = \"info\"");
    let w: Seq<char> = seq!['l', 'e', 'v', 'e', 'l', ' ', '=', ' ', '\"', 'd', 'e', 'b', 'u', 'g', '\"'];
    let r: Seq<char> = seq!['l', 'e', 'v', 'e', 'l', ' ', '=', ' ', '\"', 'i', 'n', 'f', 'o', '\"'];
    assert("level = \"debug\""@ =~= w);
    assert("level = \"info\""@ =~= r);
    assert forall|j: int| 0 <= j < r.len() implies !agree(#[trigger] r.skip(j), w) by {
        if agree(r.skip(j), w) {
            lemma_agree_at(r.skip(j), w, 0);
            if j == 0 {
                lemma_agree_at(r.skip(j), w, 9);
            }
            if j == 4 {
                lemma_agree_at(r.skip(j), w, 1);
            }
        }
    }
    assert forall|j: int| 0 < j < w.len() implies !agree(#[trigger] w.skip(j), r) by {
        if agree(w.skip(j), r) {
            lemma_agree_at(w.skip(j), r, 0);
            if j == 4 {
                lemma_agree_at(w.skip(j), r, 1);
            }
        }
    }
    lemma_replace_all_removes(imagrc, w, r, i);
}

/// Sequences that agree have the same character at each position they
/// both have.
proof fn lemma_agree_at(a: Seq<char>, b: Seq<char>, k: int)
    requires
        agree(a, b),
        0 <= k < a.len(),
        k < b.len(),
    ensures
        a[k] == b[k],
{
    let n = if a.len() <= b.len() {
        a.len()
    } else {
        b.len()
    };
    assert(a.take(n as int)[k] == b.take(n as int)[k]);
}

} // verus!
