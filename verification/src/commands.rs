//! The commands `imag` offers: the executables named `imag-<command>` it
//! finds, listed by name in the order of Rust's `String` ordering.

use vstd::prelude::*;
use vstd::relations::{sorted_by, total_ordering};
use crate::text::{chars_of, string_of};

verus! {

broadcast use vstd::seq_lib::group_to_multiset_ensures;

/// Lexicographic order of texts by their characters (for UTF-8 text the
/// same order as that of their bytes, which `String` uses).
pub open spec fn lex_le(a: Seq<char>, b: Seq<char>) -> bool
    decreases a.len(),
{
    if a.len() == 0 {
        true
    } else if b.len() == 0 {
        false
    } else if a[0] != b[0] {
        a[0] < b[0]
    } else {
        lex_le(a.drop_first(), b.drop_first())
    }
}

pub open spec fn lex_order() -> spec_fn(Seq<char>, Seq<char>) -> bool {
    |a: Seq<char>, b: Seq<char>| lex_le(a, b)
}

proof fn lemma_lex_reflexive(a: Seq<char>)
    ensures
        lex_le(a, a),
    decreases a.len(),
{
    if a.len() > 0 {
        lemma_lex_reflexive(a.drop_first());
    }
}

proof fn lemma_lex_total(a: Seq<char>, b: Seq<char>)
    ensures
        lex_le(a, b) || lex_le(b, a),
    decreases a.len(),
{
    if a.len() > 0 && b.len() > 0 && a[0] == b[0] {
        lemma_lex_total(a.drop_first(), b.drop_first());
    }
}

proof fn lemma_lex_antisymmetric(a: Seq<char>, b: Seq<char>)
    requires
        lex_le(a, b),
        lex_le(b, a),
    ensures
        a == b,
    decreases a.len(),
{
    if a.len() > 0 && b.len() > 0 {
        lemma_lex_antisymmetric(a.drop_first(), b.drop_first());
        assert(a =~= seq![a[0]] + a.drop_first());
        assert(b =~= seq![b[0]] + b.drop_first());
    }
}

proof fn lemma_lex_transitive(a: Seq<char>, b: Seq<char>, c: Seq<char>)
    requires
        lex_le(a, b),
        lex_le(b, c),
    ensures
        lex_le(a, c),
    decreases a.len(),
{
    if a.len() > 0 && b.len() > 0 && c.len() > 0 && a[0] == b[0] && b[0] == c[0] {
        lemma_lex_transitive(a.drop_first(), b.drop_first(), c.drop_first());
    }
}

/// The order of texts is a total order: a list sorted by it is determined by
/// its elements.
pub proof fn law_lex_total_ordering()
    ensures
        total_ordering(lex_order()),
{
    assert forall|a: Seq<char>| #[trigger] lex_order()(a, a) by {
        lemma_lex_reflexive(a);
    }
    assert forall|a: Seq<char>, b: Seq<char>|
        #[trigger] lex_order()(a, b) && #[trigger] lex_order()(b, a) implies a == b by {
        lemma_lex_antisymmetric(a, b);
    }
    assert forall|a: Seq<char>, b: Seq<char>, c: Seq<char>|
        #[trigger] lex_order()(a, b) && #[trigger] lex_order()(b, c) implies lex_order()(
        a,
        c,
    ) by {
        lemma_lex_transitive(a, b, c);
    }
    assert forall|a: Seq<char>, b: Seq<char>|
        #[trigger] lex_order()(a, b) || #[trigger] lex_order()(b, a) by {
        lemma_lex_total(a, b);
    }
}

/// Whether `a` comes before `b` or equals it.
fn chars_le(a: &Vec<char>, b: &Vec<char>) -> (r: bool)
    ensures
        r == lex_le(a@, b@),
{
    let mut i: usize = 0;
    assert(a@.skip(0) =~= a@ && b@.skip(0) =~= b@);
    while i < a.len() && i < b.len()
        invariant
            i <= a.len(),
            i <= b.len(),
            forall|k: int| 0 <= k < i ==> a@[k] == b@[k],
            lex_le(a@, b@) == lex_le(a@.skip(i as int), b@.skip(i as int)),
        decreases a.len() - i,
    {
        let ghost sa = a@.skip(i as int);
        let ghost sb = b@.skip(i as int);
        assert(sa[0] == a@[i as int] && sb[0] == b@[i as int]);
        if a[i] != b[i] {
            return a[i] < b[i];
        }
        assert(sa.drop_first() =~= a@.skip(i + 1));
        assert(sb.drop_first() =~= b@.skip(i + 1));
        i = i + 1;
    }
    i == a.len()
}

/// The command an executable named `name` offers: `imag-<command>` offers
/// `<command>`; other names offer none.
pub open spec fn command_of(name: Seq<char>) -> Option<Seq<char>> {
    if name.len() >= 5 && name.take(5) == "imag-"@ {
        Some(name.skip(5))
    } else {
        None
    }
}

/// The commands offered by the executables `names` (`None`: a name that is
/// not valid Unicode), in their order.
pub open spec fn commands_of(names: Seq<Option<Seq<char>>>) -> Seq<Seq<char>>
    decreases names.len(),
{
    if names.len() == 0 {
        Seq::empty()
    } else {
        let rest = commands_of(names.drop_last());
        match names.last() {
            Some(n) => match command_of(n) {
                Some(c) => rest.push(c),
                None => rest,
            },
            None => rest,
        }
    }
}

pub open spec fn names_view(v: Seq<Option<String>>) -> Seq<Option<Seq<char>>> {
    v.map_values(|o: Option<String>| match o {
        Some(s) => Some(s@),
        None => None,
    })
}

pub open spec fn strings_view(v: Seq<String>) -> Seq<Seq<char>> {
    v.map_values(|s: String| s@)
}

fn command_name(name: &str) -> (res: Option<String>)
    ensures
        match command_of(name@) {
            Some(c) => res matches Some(r) && r@ == c,
            None => res is None,
        },
{
    let cs = chars_of(name);
    proof {
        reveal_strlit("imag-");
    }
    if cs.len() >= 5 && cs[0] == 'i' && cs[1] == 'm' && cs[2] == 'a' && cs[3] == 'g' && cs[4]
        == '-' {
        assert(cs@.take(5) =~= "imag-"@);
        let mut rest: Vec<char> = Vec::new();
        let mut j: usize = 5;
        while j < cs.len()
            invariant
                5 <= j <= cs.len(),
                rest@ == cs@.subrange(5, j as int),
            decreases cs.len() - j,
        {
            rest.push(cs[j]);
            j = j + 1;
            assert(rest@ =~= cs@.subrange(5, j as int));
        }
        assert(cs@.skip(5) =~= cs@.subrange(5, cs.len() as int));
        Some(string_of(&rest))
    } else {
        proof {
            if cs@.len() >= 5 && cs@.take(5) == "imag-"@ {
                assert(cs@.take(5)[0] == 'i');
                assert(cs@.take(5)[1] == 'm');
                assert(cs@.take(5)[2] == 'a');
                assert(cs@.take(5)[3] == 'g');
                assert(cs@.take(5)[4] == '-');
            }
        }
        None
    }
}

/// Inserts `s` into the sorted list `v`, after the elements that do not come
/// after it.
fn insert_sorted(v: &mut Vec<String>, s: String)
    requires
        sorted_by(strings_view(old(v)@), lex_order()),
    ensures
        sorted_by(strings_view(final(v)@), lex_order()),
        strings_view(final(v)@).to_multiset() == strings_view(old(v)@).to_multiset().insert(s@),
{
    let ghost old_v = strings_view(v@);
    let sc = chars_of(s.as_str());
    let mut p: usize = 0;
    while p < v.len() && chars_le(&chars_of(v[p].as_str()), &sc)
        invariant
            p <= v.len(),
            sc@ == s@,
            old_v == strings_view(v@),
            sorted_by(old_v, lex_order()),
            forall|k: int| 0 <= k < p ==> lex_le(#[trigger] old_v[k], s@),
        decreases v.len() - p,
    {
        assert(old_v[p as int] == v@[p as int]@);
        p = p + 1;
    }
    proof {
        law_lex_total_ordering();
        assert forall|k: int| p <= k < old_v.len() implies lex_le(s@, #[trigger] old_v[k]) by {
            if k == p {
                assert(old_v[p as int] == v@[p as int]@);
                lemma_lex_total(old_v[k], s@);
            } else {
                assert(old_v[p as int] == v@[p as int]@);
                lemma_lex_total(old_v[p as int], s@);
                assert(lex_order()(old_v[p as int], old_v[k]));
                lemma_lex_transitive(s@, old_v[p as int], old_v[k]);
            }
        }
    }
    let ghost sv = s@;
    v.insert(p, s);
    proof {
        assert(strings_view(v@) =~= old_v.insert(p as int, sv));
        vstd::seq_lib::to_multiset_insert(old_v, p as int, sv);
        let nv = strings_view(v@);
        assert forall|a: int, b: int| 0 <= a < b < nv.len() implies #[trigger] lex_order()(
            nv[a],
            nv[b],
        ) by {
            if a < p && b < p {
                assert(nv[a] == old_v[a] && nv[b] == old_v[b]);
            } else if a < p && b == p {
                assert(nv[a] == old_v[a]);
            } else if a < p {
                assert(nv[a] == old_v[a] && nv[b] == old_v[b - 1]);
            } else if a == p {
                assert(nv[b] == old_v[b - 1]);
            } else {
                assert(nv[a] == old_v[a - 1] && nv[b] == old_v[b - 1]);
            }
        }
    }
}

/// The commands offered by the executables named `file_names` (`None`: a
/// name that is not valid Unicode), sorted.
pub fn get_commands(file_names: &Vec<Option<String>>) -> (res: Vec<String>)
    ensures
        sorted_by(strings_view(res@), lex_order()),
        strings_view(res@).to_multiset() == commands_of(names_view(file_names@)).to_multiset(),
{
    let ghost nv = names_view(file_names@);
    let mut res: Vec<String> = Vec::new();
    let mut k: usize = 0;
    while k < file_names.len()
        invariant
            k <= file_names.len(),
            nv == names_view(file_names@),
            sorted_by(strings_view(res@), lex_order()),
            strings_view(res@).to_multiset() == commands_of(nv.take(k as int)).to_multiset(),
        decreases file_names.len() - k,
    {
        proof {
            assert(nv.take(k + 1).drop_last() =~= nv.take(k as int));
            assert(nv.take(k + 1).last() == nv[k as int]);
        }
        match &file_names[k] {
            Some(name) => {
                assert(nv[k as int] == Some(name@));
                match command_name(name.as_str()) {
                    Some(c) => {
                        let ghost cv = c@;
                        insert_sorted(&mut res, c);
                        proof {
                            vstd::seq_lib::to_multiset_build(commands_of(nv.take(k as int)), cv);
                        }
                    },
                    None => {},
                }
            },
            None => {},
        }
        k = k + 1;
    }
    assert(nv.take(file_names.len() as int) =~= nv);
    res
}

} // verus!

verus! {

/// The list of commands is determined by the executables found: any sorted
/// list of the same commands is that list.
pub proof fn law_commands_determined(found: Seq<Seq<char>>, other: Seq<Seq<char>>, names: Seq<Option<Seq<char>>>)
    requires
        sorted_by(found, lex_order()),
        found.to_multiset() == commands_of(names).to_multiset(),
        sorted_by(other, lex_order()),
        other.to_multiset() == commands_of(names).to_multiset(),
    ensures
        found == other,
{
    law_lex_total_ordering();
    vstd::seq_lib::lemma_sorted_unique(found, other, lex_order());
}

} // verus!
