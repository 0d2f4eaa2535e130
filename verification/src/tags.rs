//! Which tags the tagging tool adds to or removes from an entry, from what
//! its command line gives.

use vstd::prelude::*;
use crate::text::{chars_of, join, joined, string_of, texts_view};

verus! {

pub open spec fn strings_view(v: Seq<String>) -> Seq<Seq<char>> {
    v.map_values(|s: String| s@)
}

pub open spec fn opt_strings_view(o: Option<Vec<String>>) -> Option<Seq<Seq<char>>> {
    match o {
        Some(v) => Some(strings_view(v@)),
        None => None,
    }
}

/// The tags named by the specifications that start with `specchar`, each
/// without that first character, in order.
pub open spec fn marked_tags(specs: Seq<Seq<char>>, specchar: char) -> Seq<Seq<char>>
    decreases specs.len(),
{
    if specs.len() == 0 {
        Seq::empty()
    } else {
        let rest = marked_tags(specs.drop_last(), specchar);
        let s = specs.last();
        if s.len() > 0 && s[0] == specchar {
            rest.push(s.drop_first())
        } else {
            rest
        }
    }
}

/// The tags to add or remove: with the `tags` subcommand, the values it
/// gives for the specifier; else those of the tag specifications of the
/// command line that start with `specchar`.
pub open spec fn spec_extract_tags(
    subcommand_values: Option<Option<Seq<Seq<char>>>>,
    specify_tags: Option<Seq<Seq<char>>>,
    specchar: char,
) -> Option<Seq<Seq<char>>> {
    match subcommand_values {
        Some(values) => values,
        None => match specify_tags {
            Some(specs) => Some(marked_tags(specs, specchar)),
            None => None,
        },
    }
}

pub open spec fn opt_opt_view(o: Option<Option<Vec<String>>>) -> Option<Option<Seq<Seq<char>>>> {
    match o {
        Some(v) => Some(opt_strings_view(v)),
        None => None,
    }
}

/// The tags to add or remove. `subcommand_values` is `None` without the
/// `tags` subcommand, else the values it gives for the specifier.
///
/// A marked specification loses its first byte (`split_at(1)`), which panics
/// where `specchar` takes more than one byte in UTF-8; so `specchar` is
/// required to be ASCII, as the tools' `+` and `-` are.
pub fn extract_tags(
    subcommand_values: Option<Option<Vec<String>>>,
    specify_tags: Option<Vec<String>>,
    specchar: char,
) -> (res: Option<Vec<String>>)
    requires
        (specchar as u32) < 128,
    ensures
        opt_strings_view(res) == spec_extract_tags(
            opt_opt_view(subcommand_values),
            opt_strings_view(specify_tags),
            specchar,
        ),
{
    match subcommand_values {
        Some(values) => values,
        None => match specify_tags {
            None => None,
            Some(specs) => {
                let ghost sv = strings_view(specs@);
                let mut tags: Vec<String> = Vec::new();
                let mut k: usize = 0;
                while k < specs.len()
                    invariant
                        k <= specs.len(),
                        sv == strings_view(specs@),
                        strings_view(tags@) == marked_tags(sv.take(k as int), specchar),
                    decreases specs.len() - k,
                {
                    let cs = chars_of(specs[k].as_str());
                    proof {
                        assert(sv.take(k + 1).drop_last() =~= sv.take(k as int));
                        assert(sv.take(k + 1).last() == specs@[k as int]@);
                    }
                    if cs.len() > 0 && cs[0] == specchar {
                        let mut rest: Vec<char> = Vec::new();
                        let mut j: usize = 1;
                        while j < cs.len()
                            invariant
                                1 <= j <= cs.len(),
                                rest@ == cs@.subrange(1, j as int),
                            decreases cs.len() - j,
                        {
                            rest.push(cs[j]);
                            j = j + 1;
                            assert(rest@ =~= cs@.subrange(1, j as int));
                        }
                        let t = string_of(&rest);
                        let ghost before = strings_view(tags@);
                        tags.push(t);
                        proof {
                            assert(cs@.drop_first() =~= cs@.subrange(1, cs.len() as int));
                            assert(strings_view(tags@) =~= before.push(t@));
                        }
                    }
                    k = k + 1;
                }
                assert(sv.take(specs.len() as int) =~= sv);
                Some(tags)
            },
        },
    }
}

/// The tags to add: those that `extract_tags` finds with `+`, else the
/// values of the `add-tags` argument.
pub fn get_add_tags(
    subcommand_values: Option<Option<Vec<String>>>,
    specify_tags: Option<Vec<String>>,
    add_values: Option<Vec<String>>,
) -> (res: Option<Vec<String>>)
    ensures
        opt_strings_view(res) == match spec_extract_tags(
            opt_opt_view(subcommand_values),
            opt_strings_view(specify_tags),
            '+',
        ) {
            Some(t) => Some(t),
            None => opt_strings_view(add_values),
        },
{
    match extract_tags(subcommand_values, specify_tags, '+') {
        Some(t) => Some(t),
        None => add_values,
    }
}

/// The tags to remove: those that `extract_tags` finds with `+` (the same
/// character as for adding), else the values of the `remove-tags`
/// argument.
pub fn get_remove_tags(
    subcommand_values: Option<Option<Vec<String>>>,
    specify_tags: Option<Vec<String>>,
    remove_values: Option<Vec<String>>,
) -> (res: Option<Vec<String>>)
    ensures
        opt_strings_view(res) == match spec_extract_tags(
            opt_opt_view(subcommand_values),
            opt_strings_view(specify_tags),
            '+',
        ) {
            Some(t) => Some(t),
            None => opt_strings_view(remove_values),
        },
{
    match extract_tags(subcommand_values, specify_tags, '+') {
        Some(t) => Some(t),
        None => remove_values,
    }
}

/// The lines `list` prints for the tags of an entry: each tag on a line of
/// its own (`linewise`), the tags joined with `sep` where one is given, and
/// the tags joined with `, ` (`commasep`, or where no form is asked for).
pub open spec fn spec_list_lines(
    tags: Seq<Seq<char>>,
    linewise: bool,
    sep: Option<Seq<char>>,
    commasep: bool,
) -> Seq<Seq<char>> {
    let comma = commasep || !(linewise || sep is Some);
    (if linewise {
        tags
    } else {
        Seq::empty()
    }) + (match sep {
        Some(s) => seq![joined(tags, s)],
        None => Seq::empty(),
    }) + (if comma {
        seq![joined(tags, ", "@)]
    } else {
        Seq::empty()
    })
}

/// The lines `list` prints for the tags of an entry. JSON output is not
/// offered (the tool stops there), so it is not asked for here.
pub fn list(tags: &Vec<String>, linewise: bool, sep: Option<&str>, commasep: bool) -> (res: Vec<String>)
    ensures
        texts_view(res@) == spec_list_lines(
            texts_view(tags@),
            linewise,
            match sep {
                Some(s) => Some(s@),
                None => None,
            },
            commasep,
        ),
{
    let ghost tv = texts_view(tags@);
    let mut res: Vec<String> = Vec::new();
    if linewise {
        let mut k: usize = 0;
        while k < tags.len()
            invariant
                k <= tags.len(),
                tv == texts_view(tags@),
                texts_view(res@) == tv.take(k as int),
            decreases tags.len() - k,
        {
            let ghost before = texts_view(res@);
            res.push(tags[k].clone());
            proof {
                assert(texts_view(res@) =~= before.push(tv[k as int]));
                assert(tv.take(k + 1) =~= tv.take(k as int).push(tv[k as int]));
            }
            k = k + 1;
        }
        assert(tv.take(tags.len() as int) =~= tv);
    }
    let ghost after_lines = texts_view(res@);
    let ghost sep_part = match sep {
        Some(s) => seq![joined(tv, s@)],
        None => Seq::<Seq<char>>::empty(),
    };
    match sep {
        Some(s) => {
            res.push(join(tags, s));
        },
        None => {},
    }
    assert(texts_view(res@) =~= after_lines + sep_part);
    let ghost after_sep = texts_view(res@);
    let comma = commasep || !(linewise || sep.is_some());
    if comma {
        res.push(join(tags, ", "));
        proof {
            reveal_strlit(", ");
        }
        assert(texts_view(res@) =~= after_sep + seq![joined(tv, ", "@)]);
    } else {
        assert(texts_view(res@) =~= after_sep + Seq::<Seq<char>>::empty());
    }
    res
}

} // verus!

verus! {

/// Each tag taken from the specifications is one of them without its first
/// character, which is `specchar`; there are no more tags than
/// specifications.
pub proof fn law_marked_tags_come_from_specs(specs: Seq<Seq<char>>, specchar: char)
    ensures
        marked_tags(specs, specchar).len() <= specs.len(),
        forall|k: int|
            0 <= k < marked_tags(specs, specchar).len() ==> exists|i: int|
                0 <= i < specs.len() && specs[i].len() > 0 && specs[i][0] == specchar
                    && #[trigger] marked_tags(specs, specchar)[k] == specs[i].drop_first(),
    decreases specs.len(),
{
    if specs.len() > 0 {
        let init = specs.drop_last();
        law_marked_tags_come_from_specs(init, specchar);
        let rest = marked_tags(init, specchar);
        let m = marked_tags(specs, specchar);
        assert forall|k: int| 0 <= k < m.len() implies exists|i: int|
            0 <= i < specs.len() && specs[i].len() > 0 && specs[i][0] == specchar
                && #[trigger] m[k] == specs[i].drop_first() by {
            if k < rest.len() {
                assert(m[k] == rest[k]);
                let i = choose|i: int|
                    0 <= i < init.len() && init[i].len() > 0 && init[i][0] == specchar
                        && #[trigger] rest[k] == init[i].drop_first();
                assert(specs[i] == init[i]);
            } else {
                assert(m[k] == specs.last().drop_first());
                assert(specs[specs.len() - 1] == specs.last());
            }
        }
    }
}

} // verus!
