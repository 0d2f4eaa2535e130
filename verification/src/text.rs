//! Character-level helpers on strings.

use vstd::prelude::*;

verus! {

/// The characters of `s`.
pub fn chars_of(s: &str) -> (v: Vec<char>)
    ensures
        v@ == s@,
{
    broadcast use vstd::string::axiom_spec_iter;
    let mut v: Vec<char> = Vec::new();
    for c in iter: s.chars()
        invariant
            iter.seq() == s@,
            v@ == s@.take(iter.index() as int),
    {
        v.push(c);
        assert(v@ =~= s@.take(iter.index() as int + 1));
    }
    assert(v@ =~= s@);
    v
}


/// `String::push`: appends one character, as its documentation states.
#[verifier::external_body]
pub(crate) fn push_char(s: &mut String, c: char)
    ensures
        final(s)@ == old(s)@.push(c),
{
    s.push(c);
}

/// The string made of the characters of `cs`.
pub fn string_of(cs: &Vec<char>) -> (s: String)
    ensures
        s@ == cs@,
{
    let mut s = String::new();
    let mut i: usize = 0;
    while i < cs.len()
        invariant
            i <= cs.len(),
            s@ == cs@.take(i as int),
        decreases cs.len() - i,
    {
        push_char(&mut s, cs[i]);
        i = i + 1;
        assert(s@ =~= cs@.take(i as int));
    }
    assert(cs@.take(cs.len() as int) =~= cs@);
    s
}

/// `w` occurs in `s` at position `i`.
pub open spec fn occurs_at(s: Seq<char>, w: Seq<char>, i: int) -> bool {
    0 <= i && i + w.len() <= s.len() && s.subrange(i, i + w.len()) == w
}

pub fn chars_occur_at(s: &Vec<char>, w: &Vec<char>, i: usize) -> (r: bool)
    ensures
        r == occurs_at(s@, w@, i as int),
{
    if i > s.len() || w.len() > s.len() - i {
        return false;
    }
    let mut k: usize = 0;
    while k < w.len()
        invariant
            k <= w.len(),
            i + w.len() <= s.len(),
            forall|j: int| 0 <= j < k ==> s@[i + j] == w@[j],
        decreases w.len() - k,
    {
        if s[i + k] != w[k] {
            assert(s@.subrange(i as int, i + w.len())[k as int] != w@[k as int]);
            return false;
        }
        k = k + 1;
    }
    assert(s@.subrange(i as int, i + w.len()) =~= w@);
    true
}

pub fn chars_eq(a: &Vec<char>, b: &Vec<char>) -> (r: bool)
    ensures
        r == (a@ == b@),
{
    if a.len() != b.len() {
        return false;
    }
    let r = chars_occur_at(a, b, 0);
    assert(a@.subrange(0, b.len() as int) =~= a@);
    r
}

/// Whether two strings hold the same characters.
pub fn str_eq(a: &str, b: &str) -> (r: bool)
    ensures
        r == (a@ == b@),
{
    chars_eq(&chars_of(a), &chars_of(b))
}

/// `s` with each occurrence of `from` replaced by `to`, occurrences taken
/// from left to right without overlapping.
pub open spec fn replace_all(s: Seq<char>, from: Seq<char>, to: Seq<char>) -> Seq<char>
    recommends
        from.len() > 0,
    decreases s.len(),
{
    if s.len() == 0 {
        Seq::empty()
    } else if from.len() > 0 && occurs_at(s, from, 0) {
        to + replace_all(s.skip(from.len() as int), from, to)
    } else {
        seq![s[0]] + replace_all(s.drop_first(), from, to)
    }
}

/// `a` and `b` agree on the length they have in common.
pub open spec fn agree(a: Seq<char>, b: Seq<char>) -> bool {
    let n = if a.len() <= b.len() {
        a.len()
    } else {
        b.len()
    };
    a.take(n as int) == b.take(n as int)
}

/// An occurrence of `w` at `i + 1` in `s` is one at `i` in `s` without its
/// first character.
proof fn lemma_occurs_drop_first(s: Seq<char>, w: Seq<char>, i: int)
    requires
        s.len() > 0,
        0 <= i,
    ensures
        occurs_at(s.drop_first(), w, i) == occurs_at(s, w, i + 1),
{
    if i + 1 + w.len() <= s.len() {
        assert(s.drop_first().subrange(i, i + w.len()) =~= s.subrange(i + 1, i + 1 + w.len()));
    }
}

/// Where `w` does not occur before `k`, replacing leaves the first `k`
/// characters as they are.
proof fn lemma_replace_all_prefix(s: Seq<char>, w: Seq<char>, r: Seq<char>, k: int)
    requires
        w.len() > 0,
        0 <= k <= s.len(),
        forall|m: int| 0 <= m < k ==> !occurs_at(s, w, m),
    ensures
        replace_all(s, w, r) == s.take(k) + replace_all(s.skip(k), w, r),
    decreases k,
{
    if k == 0 {
        assert(s.skip(0) =~= s);
        assert(s.take(0) + replace_all(s, w, r) =~= replace_all(s, w, r));
    } else {
        assert(!occurs_at(s, w, 0));
        assert forall|m: int| 0 <= m < k - 1 implies !occurs_at(s.drop_first(), w, m) by {
            lemma_occurs_drop_first(s, w, m);
        }
        lemma_replace_all_prefix(s.drop_first(), w, r, k - 1);
        assert(s.drop_first().skip(k - 1) =~= s.skip(k));
        assert(seq![s[0]] + s.drop_first().take(k - 1) =~= s.take(k));
        assert(seq![s[0]] + (s.drop_first().take(k - 1) + replace_all(s.skip(k), w, r)) =~= s.take(k)
            + replace_all(s.skip(k), w, r));
    }
}

/// The first position in `m..k` where `w` occurs in `s`, or `k`.
pub open spec fn first_occurrence(s: Seq<char>, w: Seq<char>, m: int, k: int) -> int
    decreases k - m,
{
    if m >= k {
        k
    } else if occurs_at(s, w, m) {
        m
    } else {
        first_occurrence(s, w, m + 1, k)
    }
}

proof fn lemma_first_occurrence(s: Seq<char>, w: Seq<char>, m: int, k: int)
    requires
        m <= k,
    ensures
        m <= first_occurrence(s, w, m, k) <= k,
        first_occurrence(s, w, m, k) < k ==> occurs_at(s, w, first_occurrence(s, w, m, k)),
        forall|j: int| m <= j < first_occurrence(s, w, m, k) ==> !occurs_at(s, w, j),
    decreases k - m,
{
    if m < k && !occurs_at(s, w, m) {
        lemma_first_occurrence(s, w, m + 1, k);
    }
}

/// Replacing every `w` by `r` leaves no `w` behind, where no end of `r`
/// begins `w` and no proper end of `w` agrees with the start of `r`, and
/// `r` is shorter than `w`.
pub proof fn lemma_replace_all_removes(s: Seq<char>, w: Seq<char>, r: Seq<char>, i: int)
    requires
        w.len() > 0,
        r.len() < w.len(),
        forall|j: int| 0 <= j < r.len() ==> !agree(#[trigger] r.skip(j), w),
        forall|j: int| 0 < j < w.len() ==> !agree(#[trigger] w.skip(j), r),
    ensures
        !occurs_at(replace_all(s, w, r), w, i),
    decreases s.len(),
{
    let t = replace_all(s, w, r);
    if s.len() == 0 {
        return;
    }
    if i < 0 || !occurs_at(t, w, i) {
        return;
    }
    if occurs_at(s, w, 0) {
        let rest = replace_all(s.skip(w.len() as int), w, r);
        assert(t == r + rest);
        if i >= r.len() {
            lemma_replace_all_removes(s.skip(w.len() as int), w, r, i - r.len());
            assert(t.subrange(i, i + w.len()) =~= rest.subrange(i - r.len(), i - r.len() + w.len()));
        } else {
            let n = (r.len() - i) as int;
            assert(r.skip(i).take(n) =~= t.subrange(i, i + w.len()).take(n));
            assert(agree(r.skip(i), w));
        }
    } else {
        let rest = replace_all(s.drop_first(), w, r);
        assert(t == seq![s[0]] + rest);
        if i >= 1 {
            lemma_replace_all_removes(s.drop_first(), w, r, i - 1);
            assert(t.subrange(i, i + w.len()) =~= rest.subrange(i - 1, i - 1 + w.len()));
        } else {
            let k = if s.len() < w.len() {
                s.len() as int
            } else {
                w.len() as int
            };
            lemma_first_occurrence(s, w, 0, k);
            let m = first_occurrence(s, w, 0, k);
            lemma_replace_all_prefix(s, w, r, m);
            if m == k {
                if s.len() < w.len() {
                    assert(s.skip(k) =~= Seq::<char>::empty());
                    assert(t =~= s);
                } else {
                    assert(t.subrange(0, w.len() as int) =~= s.subrange(0, w.len() as int));
                }
            } else {
                let after = replace_all(s.skip(m), w, r);
                assert(s.skip(m).subrange(0, w.len() as int) =~= s.subrange(m, m + w.len()));
                assert(after == r + replace_all(s.skip(m).skip(w.len() as int), w, r));
                let n = (w.len() - m) as int;
                assert(t.subrange(m, w.len() as int) =~= w.skip(m)) by {
                    assert(t.subrange(m, w.len() as int) =~= t.subrange(0, w.len() as int).skip(m));
                }
                let c = if n <= r.len() {
                    n
                } else {
                    r.len() as int
                };
                assert(t.subrange(m, m + c) =~= after.take(c));
                assert(after.take(c) =~= r.take(c));
                assert(t.subrange(m, m + c) =~= w.skip(m).take(c));
                assert(agree(w.skip(m), r));
            }
        }
    }
}

/// `str::replace` for a non-empty pattern.
pub fn replace(s: &str, from: &str, to: &str) -> (res: String)
    requires
        from@.len() > 0,
    ensures
        res@ == replace_all(s@, from@, to@),
{
    let cs = chars_of(s);
    let fs = chars_of(from);
    let ts = chars_of(to);
    let mut out: Vec<char> = Vec::new();
    let mut i: usize = 0;
    assert(cs@.skip(0) =~= cs@);
    assert(out@ + replace_all(cs@, fs@, ts@) =~= replace_all(cs@, fs@, ts@));
    while i < cs.len()
        invariant
            i <= cs.len(),
            cs@ == s@,
            fs@ == from@,
            ts@ == to@,
            fs@.len() > 0,
            out@ + replace_all(cs@.skip(i as int), fs@, ts@) == replace_all(cs@, fs@, ts@),
        decreases cs.len() - i,
    {
        let ghost rest = cs@.skip(i as int);
        let ghost before = out@;
        if chars_occur_at(&cs, &fs, i) {
            assert(rest.subrange(0, fs@.len() as int) =~= cs@.subrange(i as int, i + fs@.len()));
            assert(rest.skip(fs@.len() as int) =~= cs@.skip(i + fs@.len()));
            let mut k: usize = 0;
            while k < ts.len()
                invariant
                    k <= ts.len(),
                    out@ == before + ts@.take(k as int),
                decreases ts.len() - k,
            {
                out.push(ts[k]);
                k = k + 1;
                assert(out@ =~= before + ts@.take(k as int));
            }
            assert(ts@.take(ts.len() as int) =~= ts@);
            assert(before + (ts@ + replace_all(cs@.skip(i + fs@.len()), fs@, ts@)) =~= out@
                + replace_all(cs@.skip(i + fs@.len()), fs@, ts@));
            i = i + fs.len();
        } else {
            if fs.len() <= cs.len() - i {
                assert(rest.subrange(0, fs@.len() as int) =~= cs@.subrange(
                    i as int,
                    i + fs@.len(),
                ));
            }
            assert(rest.drop_first() =~= cs@.skip(i + 1));
            out.push(cs[i]);
            assert(before + (seq![cs@[i as int]] + replace_all(cs@.skip(i + 1), fs@, ts@))
                =~= out@ + replace_all(cs@.skip(i + 1), fs@, ts@));
            i = i + 1;
        }
    }
    assert(cs@.skip(i as int) =~= Seq::<char>::empty());
    assert(out@ + Seq::<char>::empty() =~= out@);
    string_of(&out)
}

/// The value of a decimal literal as `from_str` of an unsigned integer type
/// whose largest value is `max` reads it: an optional `+` and one or more
/// ASCII digits, the value not above `max`.
pub open spec fn spec_parse_unsigned(s: Seq<char>, max: nat) -> Option<nat> {
    let digits = unsigned_digits(s);
    if digits.len() > 0 && all_decimal(digits) && decimal_chars(digits) <= max {
        Some(decimal_chars(digits))
    } else {
        None
    }
}

/// `s` without a leading `+`.
pub open spec fn unsigned_digits(s: Seq<char>) -> Seq<char> {
    if s.len() > 0 && s[0] == '+' {
        s.drop_first()
    } else {
        s
    }
}

pub open spec fn all_decimal(d: Seq<char>) -> bool {
    forall|i: int| 0 <= i < d.len() ==> '0' <= #[trigger] d[i] <= '9'
}

pub open spec fn decimal_chars(d: Seq<char>) -> nat
    decreases d.len(),
{
    if d.len() == 0 {
        0
    } else {
        decimal_chars(d.drop_last()) * 10 + (d.last() as nat - '0' as nat) as nat
    }
}

proof fn lemma_decimal_chars_monotone(d: Seq<char>, i: int, j: int)
    requires
        0 <= i <= j <= d.len(),
        forall|k: int| 0 <= k < d.len() ==> '0' <= #[trigger] d[k] <= '9',
    ensures
        decimal_chars(d.take(i)) <= decimal_chars(d.take(j)),
    decreases j - i,
{
    if i < j {
        lemma_decimal_chars_monotone(d, i, j - 1);
        assert(d.take(j).drop_last() =~= d.take(j - 1));
    }
}

/// `from_str` of an unsigned integer type whose largest value is `max`.
pub fn parse_unsigned(s: &str, max: u64) -> (res: Option<u64>)
    ensures
        match spec_parse_unsigned(s@, max as nat) {
            Some(v) => res == Some(v as u64),
            None => res is None,
        },
{
    let cs = chars_of(s);
    let start: usize = if cs.len() > 0 && cs[0] == '+' {
        1
    } else {
        0
    };
    let ghost digits = unsigned_digits(s@);
    assert(digits =~= cs@.skip(start as int));
    if start == cs.len() {
        return None;
    }
    let mut i: usize = start;
    while i < cs.len()
        invariant
            start <= i <= cs.len(),
            start < cs.len(),
            cs@ == s@,
            start == 1 <==> (cs@.len() > 0 && cs@[0] == '+'),
            digits == cs@.skip(start as int),
            digits == unsigned_digits(s@),
            forall|k: int| 0 <= k < i - start ==> '0' <= #[trigger] digits[k] <= '9',
        decreases cs.len() - i,
    {
        if !('0' <= cs[i] && cs[i] <= '9') {
            assert(digits[i - start] == cs@[i as int]);
            assert(!('0' <= digits[i - start] <= '9'));
            return None;
        }
        i = i + 1;
    }
    let mut v: u128 = 0;
    let mut k: usize = start;
    while k < cs.len()
        invariant
            start <= k <= cs.len(),
            start < cs.len(),
            cs@ == s@,
            start == 1 <==> (cs@.len() > 0 && cs@[0] == '+'),
            digits == cs@.skip(start as int),
            digits == unsigned_digits(s@),
            forall|j: int| 0 <= j < digits.len() ==> '0' <= #[trigger] digits[j] <= '9',
            v == decimal_chars(digits.take(k - start)),
            v <= max,
        decreases cs.len() - k,
    {
        assert(cs@[k as int] == digits[k - start]);
        let d = (cs[k] as u32 - '0' as u32) as u128;
        assert(digits.take(k - start + 1).drop_last() =~= digits.take(k - start));
        assert(digits.take(k - start + 1).last() == cs@[k as int]);
        assert(decimal_chars(digits.take(k - start + 1)) == decimal_chars(digits.take(k - start))
            * 10 + d);
        v = v * 10 + d;
        if v > max as u128 {
            proof {
                lemma_decimal_chars_monotone(digits, k - start + 1, digits.len() as int);
                assert(digits.take(digits.len() as int) =~= digits);
            }
            assert(decimal_chars(digits) > max);
            return None;
        }
        k = k + 1;
    }
    assert(digits.take(digits.len() as int) =~= digits);
    Some(v as u64)
}

pub open spec fn texts_view(v: Seq<String>) -> Seq<Seq<char>> {
    v.map_values(|s: String| s@)
}

/// The parts joined into one text, with `sep` between two of them.
pub open spec fn joined(parts: Seq<Seq<char>>, sep: Seq<char>) -> Seq<char>
    decreases parts.len(),
{
    if parts.len() == 0 {
        Seq::empty()
    } else if parts.len() == 1 {
        parts[0]
    } else {
        joined(parts.drop_last(), sep) + sep + parts.last()
    }
}

/// Appends `t` to `s`.
pub fn append_str(s: &mut String, t: &str)
    ensures
        final(s)@ == old(s)@ + t@,
{
    let ts = chars_of(t);
    let mut i: usize = 0;
    while i < ts.len()
        invariant
            i <= ts.len(),
            ts@ == t@,
            s@ == old(s)@ + t@.take(i as int),
        decreases ts.len() - i,
    {
        push_char(s, ts[i]);
        i = i + 1;
        assert(s@ =~= old(s)@ + t@.take(i as int));
    }
    assert(t@.take(ts.len() as int) =~= t@);
}

/// The parts joined with `sep` between two of them.
pub fn join(parts: &Vec<String>, sep: &str) -> (res: String)
    ensures
        res@ == joined(texts_view(parts@), sep@),
{
    let ghost pv = texts_view(parts@);
    let mut res = String::new();
    let mut k: usize = 0;
    while k < parts.len()
        invariant
            k <= parts.len(),
            pv == texts_view(parts@),
            res@ == joined(pv.take(k as int), sep@),
        decreases parts.len() - k,
    {
        proof {
            assert(pv.take(k + 1).drop_last() =~= pv.take(k as int));
            assert(pv.take(k + 1).last() == parts@[k as int]@);
        }
        if k > 0 {
            append_str(&mut res, sep);
        }
        append_str(&mut res, parts[k].as_str());
        proof {
            if k == 0 {
                assert(pv.take(1)[0] == parts@[0]@);
                assert(res@ =~= parts@[0]@);
            }
        }
        k = k + 1;
    }
    assert(pv.take(parts.len() as int) =~= pv);
    res
}

} // verus!

verus! {

/// Where `from` does not occur in `s`, replacing it changes nothing.
pub proof fn law_replace_without_occurrence(s: Seq<char>, from: Seq<char>, to: Seq<char>)
    requires
        from.len() > 0,
        forall|i: int| !occurs_at(s, from, i),
    ensures
        replace_all(s, from, to) == s,
    decreases s.len(),
{
    if s.len() > 0 {
        assert forall|i: int| !occurs_at(s.drop_first(), from, i) by {
            if occurs_at(s.drop_first(), from, i) {
                assert(s.subrange(i + 1, i + 1 + from.len()) =~= s.drop_first().subrange(
                    i,
                    i + from.len(),
                ));
                assert(occurs_at(s, from, i + 1));
            }
        }
        law_replace_without_occurrence(s.drop_first(), from, to);
        assert(s =~= seq![s[0]] + s.drop_first());
    }
}

} // verus!
