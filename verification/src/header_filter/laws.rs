//! Properties of the header-filter language that hold for every query and
//! every header: how `not` and the connectives combine filter results, which
//! comparisons are complementary, and which spellings of an operator are
//! read alike.

use vstd::prelude::*;
use super::ast::{CompareOp, Function, Operator, PRes, SCompareValue, SFilter, SLiteral, SQuery, Unary};
use super::eval::{
    EvalError, outcome_is, same_kind, spec_compare, spec_filter_matches, spec_filter_on, spec_query_matches,
    spec_query_on, spec_query_prefix, spec_query_prefix_on,
};
use super::grammar::{has_prefix, spec_compare_op, spec_filter, word, word3};
use crate::toml_access::{SToml, SValueShape, found_shape_model, spec_read};
use vstd::utf8::{decode_utf8, valid_utf8};

verus! {

/// The negation of an outcome; an error stays an error.
pub open spec fn negate(r: Option<bool>) -> Option<bool> {
    match r {
        Some(b) => Some(!b),
        None => None,
    }
}

/// The result of `left op right` as a query computes it: `or` and `and`
/// keep a decided left side without looking at the right one, `xor` always
/// needs both.
pub open spec fn combine(op: Operator, left: Option<bool>, right: Option<bool>) -> Option<bool> {
    match left {
        None => None,
        Some(l) => match op {
            Operator::Or => if l {
                Some(true)
            } else {
                right
            },
            Operator::And => if !l {
                Some(false)
            } else {
                right
            },
            Operator::Xor => match right {
                None => None,
                Some(r) => Some(l != r),
            },
        },
    }
}

/// `f` with `not` in front.
pub open spec fn negated(f: SFilter) -> SFilter {
    SFilter {
        unary: Some(Unary::Not),
        selector: f.selector,
        compare_operator: f.compare_operator,
        compare_value: f.compare_value,
    }
}

/// `keys(..)` or `values(..)` applied to something that is not a table.
pub open spec fn keys_of_non_table(f: SFilter, v: SValueShape) -> bool {
    (f.selector.function() == Some(Function::Keys) || f.selector.function() == Some(
        Function::Values,
    )) && !(v is Table)
}

/// `not` negates a filter wherever its selector finds a value that the
/// filter can look at; a filter whose selector finds nothing does not hold,
/// with or without `not`, and neither does `keys(..)` or `values(..)` of a
/// value that is not a table.
pub proof fn law_not_negates(f: SFilter, v: SValueShape)
    requires
        f.unary is None,
    ensures
        spec_filter_matches(f, None) == Some(false),
        spec_filter_matches(negated(f), None) == Some(false),
        !keys_of_non_table(f, v) ==> spec_filter_matches(negated(f), Some(v)) == negate(
            spec_filter_matches(f, Some(v)),
        ),
        keys_of_non_table(f, v) ==> spec_filter_matches(f, Some(v)) == Some(false)
            && spec_filter_matches(negated(f), Some(v)) == Some(false),
{
}

/// A query of one filter holds exactly where that filter holds.
pub proof fn law_single_filter_query(f: SFilter, v: Option<SValueShape>)
    ensures
        spec_query_matches(SQuery { filter: f, next_filters: Seq::empty() }, seq![v])
            == spec_filter_matches(f, v),
{
}

/// Extending a query has no effect on the result of its first filters.
proof fn lemma_prefix_of_extension(
    q: SQuery,
    op: Operator,
    f: SFilter,
    found: Seq<Option<SValueShape>>,
    v: Option<SValueShape>,
    k: nat,
)
    requires
        found.len() == q.next_filters.len() + 1,
        k <= q.next_filters.len(),
    ensures
        spec_query_prefix(
            SQuery { filter: q.filter, next_filters: q.next_filters.push((op, f)) },
            found.push(v),
            k,
        ) == spec_query_prefix(q, found, k),
    decreases k,
{
    let ext = SQuery { filter: q.filter, next_filters: q.next_filters.push((op, f)) };
    if k == 0 {
        assert(found.push(v)[0] == found[0]);
    } else {
        lemma_prefix_of_extension(q, op, f, found, v, (k - 1) as nat);
        assert(ext.next_filters[k - 1] == q.next_filters[k - 1]);
        assert(found.push(v)[k as int] == found[k as int]);
    }
}

/// Appending `op f` to a query combines the query's result with that of
/// `f`, from the left: `a or b and c` is `(a or b) and c`.
pub proof fn law_query_extend(
    q: SQuery,
    op: Operator,
    f: SFilter,
    found: Seq<Option<SValueShape>>,
    v: Option<SValueShape>,
)
    requires
        found.len() == q.next_filters.len() + 1,
    ensures
        spec_query_matches(
            SQuery { filter: q.filter, next_filters: q.next_filters.push((op, f)) },
            found.push(v),
        ) == combine(op, spec_query_matches(q, found), spec_filter_matches(f, v)),
{
    let ext = SQuery { filter: q.filter, next_filters: q.next_filters.push((op, f)) };
    let n = q.next_filters.len();
    lemma_prefix_of_extension(q, op, f, found, v, n);
    assert(ext.next_filters[n as int] == (op, f));
    assert(found.push(v)[(n + 1) as int] == v);
    assert(spec_query_matches(ext, found.push(v)) == spec_query_prefix(ext, found.push(v), n + 1));
}

/// The result of `left op right` on a header: the first error stops the
/// evaluation; `or` and `and` keep a decided left side without evaluating
/// the right one, `xor` always evaluates both.
pub open spec fn combine_on(
    op: Operator,
    left: Result<bool, EvalError>,
    right: Result<bool, EvalError>,
) -> Result<bool, EvalError> {
    match left {
        Err(e) => Err(e),
        Ok(l) => match op {
            Operator::Or => if l {
                Ok(true)
            } else {
                right
            },
            Operator::And => if !l {
                Ok(false)
            } else {
                right
            },
            Operator::Xor => match right {
                Err(e) => Err(e),
                Ok(r) => Ok(l != r),
            },
        },
    }
}

/// On a header, a query of one filter gives what that filter gives.
pub proof fn law_single_filter_on_header(f: SFilter, doc: SToml)
    ensures
        spec_query_on(SQuery { filter: f, next_filters: Seq::empty() }, doc) == spec_filter_on(f, doc),
{
}

/// Extending a query has no effect on what its first filters give on a
/// header.
proof fn lemma_prefix_on_of_extension(q: SQuery, op: Operator, f: SFilter, doc: SToml, k: nat)
    requires
        k <= q.next_filters.len(),
    ensures
        spec_query_prefix_on(
            SQuery { filter: q.filter, next_filters: q.next_filters.push((op, f)) },
            doc,
            k,
        ) == spec_query_prefix_on(q, doc, k),
    decreases k,
{
    let ext = SQuery { filter: q.filter, next_filters: q.next_filters.push((op, f)) };
    if k > 0 {
        lemma_prefix_on_of_extension(q, op, f, doc, (k - 1) as nat);
        assert(ext.next_filters[k - 1] == q.next_filters[k - 1]);
    }
}

/// On a header, appending `op f` to a query combines what the query gives
/// with what `f` gives on the same header, from the left: filters that give
/// true, true and false joined by `or` then `and` give false.
pub proof fn law_query_on_extend(q: SQuery, op: Operator, f: SFilter, doc: SToml)
    ensures
        spec_query_on(SQuery { filter: q.filter, next_filters: q.next_filters.push((op, f)) }, doc)
            == combine_on(op, spec_query_on(q, doc), spec_filter_on(f, doc)),
{
    let ext = SQuery { filter: q.filter, next_filters: q.next_filters.push((op, f)) };
    let n = q.next_filters.len();
    lemma_prefix_on_of_extension(q, op, f, doc, n);
    assert(ext.next_filters[n as int] == (op, f));
    assert(spec_query_on(ext, doc) == spec_query_prefix_on(ext, doc, n + 1));
}

/// The selector of `f` is a UTF-8 path that can be read in a header holding
/// `doc`.
pub open spec fn reads_on(f: SFilter, doc: SToml) -> bool {
    valid_utf8(f.selector.path()) && spec_read(doc, decode_utf8(f.selector.path())) is Some
}

/// What the selector of `f` finds in a header holding `doc`.
pub open spec fn found_by(f: SFilter, doc: SToml) -> Option<SValueShape> {
    match spec_read(doc, decode_utf8(f.selector.path())) {
        Some(r) => found_shape_model(r),
        None => None,
    }
}

/// What each filter of `q` finds in a header holding `doc`.
pub open spec fn found_in(q: SQuery, doc: SToml) -> Seq<Option<SValueShape>> {
    Seq::new(
        q.next_filters.len() + 1,
        |i: int|
            if i == 0 {
                found_by(q.filter, doc)
            } else {
                found_by(q.next_filters[i - 1].1, doc)
            },
    )
}

proof fn lemma_prefix_on_is_meaning(q: SQuery, doc: SToml, k: nat)
    requires
        k <= q.next_filters.len(),
        reads_on(q.filter, doc),
        forall|i: int| 0 <= i < q.next_filters.len() ==> reads_on(#[trigger] q.next_filters[i].1, doc),
    ensures
        outcome_is(spec_query_prefix_on(q, doc, k), spec_query_prefix(q, found_in(q, doc), k)),
    decreases k,
{
    if k > 0 {
        lemma_prefix_on_is_meaning(q, doc, (k - 1) as nat);
        assert(reads_on(q.next_filters[k - 1].1, doc));
        assert(found_in(q, doc)[k as int] == found_by(q.next_filters[k - 1].1, doc));
    } else {
        assert(found_in(q, doc)[0] == found_by(q.filter, doc));
    }
}

/// Where every filter's path can be read in a header, a query gives on that
/// header its meaning over what the filters find there: the header-level
/// evaluation obeys every law stated of `spec_query_matches`.
pub proof fn law_query_on_is_meaning(q: SQuery, doc: SToml)
    requires
        reads_on(q.filter, doc),
        forall|i: int| 0 <= i < q.next_filters.len() ==> reads_on(#[trigger] q.next_filters[i].1, doc),
    ensures
        outcome_is(spec_query_on(q, doc), spec_query_matches(q, found_in(q, doc))),
{
    lemma_prefix_on_is_meaning(q, doc, q.next_filters.len());
}

/// `==` and `!=` are complementary on a value of the literal's kind; on a
/// value of another kind neither holds.
pub proof fn law_eq_neq_complement(x: SLiteral, v: SValueShape)
    ensures
        same_kind(x, v) ==> spec_compare(CompareOp::OpNeq, SCompareValue::Value(x), v) == negate(
            spec_compare(CompareOp::OpEq, SCompareValue::Value(x), v),
        ),
        !same_kind(x, v) ==> spec_compare(CompareOp::OpEq, SCompareValue::Value(x), v) == Some(
            false,
        ) && spec_compare(CompareOp::OpNeq, SCompareValue::Value(x), v) == Some(false),
{
}

/// Between two integers, `<` and `>=` are complementary, and so are `>` and
/// `<=`; an ordering comparison with a value that is not an integer does
/// not hold.
pub proof fn law_order_complement(x: SLiteral, v: SValueShape)
    ensures
        (x is Integer && v is Integer) ==> spec_compare(
            CompareOp::OpLt,
            SCompareValue::Value(x),
            v,
        ) == negate(spec_compare(CompareOp::OpGte, SCompareValue::Value(x), v))
            && spec_compare(CompareOp::OpGt, SCompareValue::Value(x), v) == negate(
            spec_compare(CompareOp::OpLte, SCompareValue::Value(x), v),
        ),
        !(x is Integer && v is Integer) ==> spec_compare(
            CompareOp::OpLt,
            SCompareValue::Value(x),
            v,
        ) == Some(false) && spec_compare(CompareOp::OpGte, SCompareValue::Value(x), v) == Some(
            false,
        ) && spec_compare(CompareOp::OpGt, SCompareValue::Value(x), v) == Some(false)
            && spec_compare(CompareOp::OpLte, SCompareValue::Value(x), v) == Some(false),
{
}

/// `is` holds exactly where the header value has the literal's kind.
pub proof fn law_is_compares_kinds(x: SLiteral, v: SValueShape)
    ensures
        spec_compare(CompareOp::OpIs, SCompareValue::Value(x), v) == Some(same_kind(x, v)),
{
}

/// Only `in` accepts a list of values; every other comparison with a list
/// is an error.
pub proof fn law_only_in_takes_lists(op: CompareOp, xs: Seq<SLiteral>, v: SValueShape)
    ensures
        op != CompareOp::OpIn ==> spec_compare(op, SCompareValue::Values(xs), v) is None,
        op == CompareOp::OpIn ==> spec_compare(op, SCompareValue::Values(xs), v) is Some,
{
}

/// For a boolean or an integer, `in` with a single value is `==`.
pub proof fn law_in_single_is_eq(x: SLiteral, v: SValueShape)
    requires
        !(x is String),
    ensures
        spec_compare(CompareOp::OpIn, SCompareValue::Value(x), v) == spec_compare(
            CompareOp::OpEq,
            SCompareValue::Value(x),
            v,
        ),
{
}

/// `==` and `eq` are read as the same operator, as are `!=` and `neq`;
/// `<=` and `>=` are never read as `<` or `>`, whatever follows them.
pub proof fn law_compare_op_spellings(rest: Seq<u8>)
    ensures
        spec_compare_op(word('=', '=') + rest) == PRes::Done(2, CompareOp::OpEq),
        spec_compare_op(word('e', 'q') + rest) == PRes::Done(2, CompareOp::OpEq),
        spec_compare_op(word('!', '=') + rest) == PRes::Done(2, CompareOp::OpNeq),
        spec_compare_op(word3('n', 'e', 'q') + rest) == PRes::Done(3, CompareOp::OpNeq),
        spec_compare_op(word('<', '=') + rest) == PRes::Done(2, CompareOp::OpLte),
        spec_compare_op(word('>', '=') + rest) == PRes::Done(2, CompareOp::OpGte),
{
    reveal(spec_compare_op);
    assert((word('=', '=') + rest).take(2) =~= word('=', '='));
    assert((word('e', 'q') + rest).take(2) =~= word('e', 'q'));
    assert((word('!', '=') + rest).take(2) =~= word('!', '='));
    assert((word3('n', 'e', 'q') + rest).take(3) =~= word3('n', 'e', 'q'));
    assert((word('<', '=') + rest).take(2) =~= word('<', '='));
    assert((word('>', '=') + rest).take(2) =~= word('>', '='));
    assert((word('=', '=') + rest).take(2) != word('i', 's'));
}

/// Writing `not` in front of a filter reads the same filter, negated, three
/// bytes longer; a text that the filter cannot be read from stays
/// unreadable.
pub proof fn law_not_prefix(t: Seq<u8>)
    requires
        !has_prefix(t, word3('n', 'o', 't')),
    ensures
        match spec_filter(t) {
            PRes::Done(n, f) => f.unary is None && spec_filter(word3('n', 'o', 't') + t)
                == PRes::Done(n + 3, negated(f)),
            PRes::Error => spec_filter(word3('n', 'o', 't') + t) is Error,
            PRes::Incomplete => spec_filter(word3('n', 'o', 't') + t) is Incomplete,
            PRes::Abort => spec_filter(word3('n', 'o', 't') + t) is Abort,
        },
{
    reveal(spec_filter);
    let s = word3('n', 'o', 't') + t;
    assert(s.take(3) =~= word3('n', 'o', 't'));
    assert(s.skip(3) =~= t);
    assert(t.skip(0) =~= t);
}

/// `in` with a list holds for a header integer exactly when some element of
/// the list is that integer, whichever position it has.
pub proof fn law_in_list_integer(xs: Seq<SLiteral>, j: i64, k: int)
    ensures
        (0 <= k < xs.len() && xs[k] == SLiteral::Integer(j)) ==> spec_compare(
            CompareOp::OpIn,
            SCompareValue::Values(xs),
            SValueShape::Integer(j),
        ) == Some(true),
        (forall|i: int| 0 <= i < xs.len() ==> #[trigger] xs[i] != SLiteral::Integer(j)) ==> spec_compare(
            CompareOp::OpIn,
            SCompareValue::Values(xs),
            SValueShape::Integer(j),
        ) == Some(false),
{
    if 0 <= k < xs.len() && xs[k] == SLiteral::Integer(j) {
        assert(xs.contains(SLiteral::Integer(j)));
    }
}

/// `in` with a list holds for a header string exactly when some element of
/// the list is that string (by its bytes), whichever position it has.
pub proof fn law_in_list_string(xs: Seq<SLiteral>, b: Seq<char>, k: int)
    ensures
        (0 <= k < xs.len() && xs[k] == SLiteral::String(vstd::utf8::encode_utf8(b))) ==> spec_compare(
            CompareOp::OpIn,
            SCompareValue::Values(xs),
            SValueShape::String(b),
        ) == Some(true),
        (forall|i: int| 0 <= i < xs.len() ==> #[trigger] xs[i] != SLiteral::String(vstd::utf8::encode_utf8(b)))
            ==> spec_compare(
            CompareOp::OpIn,
            SCompareValue::Values(xs),
            SValueShape::String(b),
        ) == Some(false),
{
    if 0 <= k < xs.len() && xs[k] == SLiteral::String(vstd::utf8::encode_utf8(b)) {
        assert(xs.contains(SLiteral::String(vstd::utf8::encode_utf8(b))));
    }
}

} // verus!
