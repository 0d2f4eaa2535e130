//! Deciding whether an entry header matches a query.
//!
//! The exact meaning of a filter is stated over the value that its selector
//! finds in the header (`spec_filter_matches`), and the meaning of a query
//! over the values its filters find (`spec_query_matches`). Evaluation stops
//! with an error where a comparison that needs a single value meets a list.

use vstd::prelude::*;
use vstd::utf8::{decode_utf8, encode_utf8, valid_utf8};
use super::ast::{
    CompareOp, CompareValue, Filter, Function, Literal, Operator, Query, SCompareValue, SFilter,
    SLiteral, SQuery, SSelector, Unary, literals_view,
};
use crate::toml_access::{
    ReadError, SToml, SValueShape, ValueShape, found_shape_model, read_checked, shape_of, spec_read,
    toml_model, utf8_str,
};

verus! {

/// Why a filter could not be decided. The tool prints a message and
/// stops in each case.
#[derive(Debug, Clone, Copy, PartialEq, Eq, Structural)]
pub enum EvalError {
    /// The comparison needs a single value but the query gives a list.
    MultipleValues(CompareOp),
    /// The header path could not be resolved.
    Read,
    /// The selector's path is not valid UTF-8.
    InvalidPath,
}

/// `needle` occurs in `hay` as a contiguous block.
pub open spec fn spec_contains(hay: Seq<u8>, needle: Seq<u8>) -> bool {
    exists|i: int|
        0 <= i && i + needle.len() <= hay.len() && #[trigger] hay.subrange(i, i + needle.len())
            == needle
}

/// The literal and the header value have the same kind (boolean, integer,
/// string).
pub open spec fn same_kind(x: SLiteral, v: SValueShape) -> bool {
    match (x, v) {
        (SLiteral::Boolean(_), SValueShape::Boolean(_)) => true,
        (SLiteral::Integer(_), SValueShape::Integer(_)) => true,
        (SLiteral::String(_), SValueShape::String(_)) => true,
        _ => false,
    }
}

/// Compares the query's value(s) `cv` with the header value `v`. `None`
/// where the operator needs a single value and `cv` is a list.
///
/// The ordering operators compare the query's integer with the header's:
/// `sel >= c` holds when `c >= v`. `in` with a single string holds when the
/// header string occurs in the query string; with a list, when the header
/// integer or string is one of the list's elements.
pub open spec fn spec_compare(op: CompareOp, cv: SCompareValue, v: SValueShape) -> Option<bool> {
    match (op, cv) {
        (CompareOp::OpIs, SCompareValue::Value(x)) => Some(same_kind(x, v)),
        (CompareOp::OpIn, SCompareValue::Value(x)) => Some(
            match (x, v) {
                (SLiteral::Boolean(i), SValueShape::Boolean(j)) => i == j,
                (SLiteral::Integer(i), SValueShape::Integer(j)) => i == j,
                (SLiteral::String(s), SValueShape::String(b)) => spec_contains(
                    s,
                    encode_utf8(b),
                ),
                _ => false,
            },
        ),
        (CompareOp::OpIn, SCompareValue::Values(xs)) => Some(
            match v {
                SValueShape::Integer(j) => xs.contains(SLiteral::Integer(j)),
                SValueShape::String(b) => xs.contains(SLiteral::String(encode_utf8(b))),
                _ => false,
            },
        ),
        (CompareOp::OpEq, SCompareValue::Value(x)) => Some(
            match (x, v) {
                (SLiteral::Boolean(i), SValueShape::Boolean(j)) => i == j,
                (SLiteral::Integer(i), SValueShape::Integer(j)) => i == j,
                (SLiteral::String(s), SValueShape::String(b)) => s == encode_utf8(b),
                _ => false,
            },
        ),
        (CompareOp::OpNeq, SCompareValue::Value(x)) => Some(
            match (x, v) {
                (SLiteral::Boolean(i), SValueShape::Boolean(j)) => i != j,
                (SLiteral::Integer(i), SValueShape::Integer(j)) => i != j,
                (SLiteral::String(s), SValueShape::String(b)) => s != encode_utf8(b),
                _ => false,
            },
        ),
        (CompareOp::OpGte, SCompareValue::Value(x)) => Some(
            match (x, v) {
                (SLiteral::Integer(i), SValueShape::Integer(j)) => i >= j,
                _ => false,
            },
        ),
        (CompareOp::OpLte, SCompareValue::Value(x)) => Some(
            match (x, v) {
                (SLiteral::Integer(i), SValueShape::Integer(j)) => i <= j,
                _ => false,
            },
        ),
        (CompareOp::OpLt, SCompareValue::Value(x)) => Some(
            match (x, v) {
                (SLiteral::Integer(i), SValueShape::Integer(j)) => i < j,
                _ => false,
            },
        ),
        (CompareOp::OpGt, SCompareValue::Value(x)) => Some(
            match (x, v) {
                (SLiteral::Integer(i), SValueShape::Integer(j)) => i > j,
                _ => false,
            },
        ),
        _ => None,
    }
}

/// The value `length(...)` gives: the number of elements of an array, the
/// number of bytes of a string, 1 for anything else.
pub open spec fn length_of(v: SValueShape) -> i64 {
    match v {
        SValueShape::Array(n) => n as i64,
        SValueShape::String(c) => encode_utf8(c).len() as i64,
        _ => 1,
    }
}

pub open spec fn apply_unary(u: Option<Unary>, r: Option<bool>) -> Option<bool> {
    match (u, r) {
        (Some(Unary::Not), Some(b)) => Some(!b),
        _ => r,
    }
}

/// Whether a filter holds, given the value its selector found in the header
/// (`None`: nothing at that path, and the filter does not hold, even under
/// `not`). `keys(..)` and `values(..)` of a non-table do not hold either,
/// even under `not`; of a table they are an array with one element per
/// entry.
pub open spec fn spec_filter_matches(f: SFilter, found: Option<SValueShape>) -> Option<bool> {
    match found {
        None => Some(false),
        Some(v) => match f.selector.function() {
            None => apply_unary(f.unary, spec_compare(f.compare_operator, f.compare_value, v)),
            Some(Function::Length) => apply_unary(
                f.unary,
                spec_compare(f.compare_operator, f.compare_value, SValueShape::Integer(length_of(v))),
            ),
            Some(_) => match v {
                SValueShape::Table(n) => apply_unary(
                    f.unary,
                    spec_compare(f.compare_operator, f.compare_value, SValueShape::Array(n)),
                ),
                _ => Some(false),
            },
        },
    }
}

/// The result of the first `k + 1` filters of `q`, folded from the left:
/// `or` and `and` do not look at the next filter once the result is decided,
/// `xor` always does. `found[i]` is what filter `i` finds in the header.
pub open spec fn spec_query_prefix(q: SQuery, found: Seq<Option<SValueShape>>, k: nat) -> Option<bool>
    decreases k,
{
    if k == 0 {
        spec_filter_matches(q.filter, found[0])
    } else {
        match spec_query_prefix(q, found, (k - 1) as nat) {
            None => None,
            Some(res) => {
                let op = q.next_filters[k - 1].0;
                let f = q.next_filters[k - 1].1;
                match op {
                    Operator::Or => if res {
                        Some(true)
                    } else {
                        spec_filter_matches(f, found[k as int])
                    },
                    Operator::And => if !res {
                        Some(false)
                    } else {
                        spec_filter_matches(f, found[k as int])
                    },
                    Operator::Xor => match spec_filter_matches(f, found[k as int]) {
                        None => None,
                        Some(other) => Some((res && !other) || (!res && other)),
                    },
                }
            },
        }
    }
}

/// Whether a header matches a query, given what each filter finds in it.
pub open spec fn spec_query_matches(q: SQuery, found: Seq<Option<SValueShape>>) -> Option<bool> {
    spec_query_prefix(q, found, q.next_filters.len())
}

pub open spec fn shape_opt_view(v: Option<ValueShape>) -> Option<SValueShape> {
    match v {
        Some(x) => Some(x@),
        None => None,
    }
}

pub open spec fn found_view(vs: Seq<Option<ValueShape>>) -> Seq<Option<SValueShape>> {
    vs.map_values(|v: Option<ValueShape>| shape_opt_view(v))
}

/// The outcome of an evaluation, given its mathematical result.
pub open spec fn outcome_is(res: Result<bool, EvalError>, r: Option<bool>) -> bool {
    match r {
        Some(b) => res == Ok::<bool, EvalError>(b),
        None => res matches Err(EvalError::MultipleValues(_)),
    }
}

/// What a filter gives on a header holding `doc`: its selector's path is
/// read in the header (an error if the path is not UTF-8 or cannot be
/// read), and the filter's meaning is taken of what is found there.
pub open spec fn spec_filter_on(f: SFilter, doc: SToml) -> Result<bool, EvalError> {
    if !valid_utf8(f.selector.path()) {
        Err(EvalError::InvalidPath)
    } else {
        match spec_read(doc, decode_utf8(f.selector.path())) {
            None => Err(EvalError::Read),
            Some(found) => match spec_filter_matches(f, found_shape_model(found)) {
                Some(b) => Ok(b),
                None => Err(EvalError::MultipleValues(f.compare_operator)),
            },
        }
    }
}

/// What the first `k + 1` filters of `q` give on a header holding `doc`,
/// folded from the left with no precedence: `or` and `and` do not evaluate
/// the next filter once the result is decided, `xor` always does, and the
/// first error stops the evaluation.
pub open spec fn spec_query_prefix_on(q: SQuery, doc: SToml, k: nat) -> Result<bool, EvalError>
    decreases k,
{
    if k == 0 {
        spec_filter_on(q.filter, doc)
    } else {
        match spec_query_prefix_on(q, doc, (k - 1) as nat) {
            Err(e) => Err(e),
            Ok(res) => {
                let op = q.next_filters[k - 1].0;
                let f = q.next_filters[k - 1].1;
                match op {
                    Operator::Or => if res {
                        Ok(true)
                    } else {
                        spec_filter_on(f, doc)
                    },
                    Operator::And => if !res {
                        Ok(false)
                    } else {
                        spec_filter_on(f, doc)
                    },
                    Operator::Xor => match spec_filter_on(f, doc) {
                        Err(e) => Err(e),
                        Ok(other) => Ok(res != other),
                    },
                }
            },
        }
    }
}

/// What a query gives on a header holding `doc`.
pub open spec fn spec_query_on(q: SQuery, doc: SToml) -> Result<bool, EvalError> {
    spec_query_prefix_on(q, doc, q.next_filters.len())
}

fn bytes_eq(a: &[u8], b: &[u8]) -> (r: bool)
    ensures
        r == (a@ == b@),
{
    if a.len() != b.len() {
        return false;
    }
    let mut i: usize = 0;
    while i < a.len()
        invariant
            i <= a.len() == b.len(),
            forall|k: int| 0 <= k < i ==> a@[k] == b@[k],
        decreases a.len() - i,
    {
        if a[i] != b[i] {
            return false;
        }
        i = i + 1;
    }
    assert(a@ =~= b@);
    true
}

/// Whether `needle` occurs in `hay` starting at `start`.
fn occurs_at(hay: &[u8], needle: &[u8], start: usize) -> (r: bool)
    requires
        start + needle.len() <= hay.len(),
    ensures
        r == (hay@.subrange(start as int, start + needle.len()) == needle@),
{
    let mut i: usize = 0;
    while i < needle.len()
        invariant
            i <= needle.len(),
            start + needle.len() <= hay.len(),
            forall|k: int| 0 <= k < i ==> hay@[start + k] == needle@[k],
        decreases needle.len() - i,
    {
        if hay[start + i] != needle[i] {
            assert(hay@.subrange(start as int, start + needle.len())[i as int] != needle@[i as int]);
            return false;
        }
        i = i + 1;
    }
    assert(hay@.subrange(start as int, start + needle.len()) =~= needle@);
    true
}

fn contains_bytes(hay: &[u8], needle: &[u8]) -> (r: bool)
    ensures
        r == spec_contains(hay@, needle@),
{
    if needle.len() > hay.len() {
        return false;
    }
    let last = hay.len() - needle.len();
    let mut i: usize = 0;
    while i <= last
        invariant
            last == hay.len() - needle.len(),
            i <= last + 1,
            forall|k: int|
                0 <= k < i ==> #[trigger] hay@.subrange(k, k + needle.len()) != needle@,
        decreases last + 1 - i,
    {
        if occurs_at(hay, needle, i) {
            return true;
        }
        if i == last {
            return false;
        }
        i = i + 1;
    }
    false
}

fn header_bytes(s: &String) -> (r: &[u8])
    ensures
        r@ == encode_utf8(s@),
{
    s.as_str().as_bytes()
}

fn list_has_integer(xs: &Vec<Literal>, j: i64) -> (r: bool)
    ensures
        r == literals_view(xs@).contains(SLiteral::Integer(j)),
{
    let mut i: usize = 0;
    while i < xs.len()
        invariant
            i <= xs.len(),
            forall|k: int| 0 <= k < i ==> xs@[k]@ != SLiteral::Integer(j),
        decreases xs.len() - i,
    {
        if let Literal::Integer(x) = &xs[i] {
            if *x == j {
                assert(literals_view(xs@)[i as int] == SLiteral::Integer(j));
                return true;
            }
        }
        i = i + 1;
    }
    false
}

fn list_has_string(xs: &Vec<Literal>, b: &[u8]) -> (r: bool)
    ensures
        r == literals_view(xs@).contains(SLiteral::String(b@)),
{
    let mut i: usize = 0;
    while i < xs.len()
        invariant
            i <= xs.len(),
            forall|k: int| 0 <= k < i ==> xs@[k]@ != SLiteral::String(b@),
        decreases xs.len() - i,
    {
        if let Literal::String(x) = &xs[i] {
            if bytes_eq(x.as_slice(), b) {
                assert(literals_view(xs@)[i as int] == SLiteral::String(b@));
                return true;
            }
        }
        i = i + 1;
    }
    false
}

/// Compares the query's value(s) with a header value.
pub fn compare(op: CompareOp, cv: &CompareValue, v: &ValueShape) -> (res: Result<bool, EvalError>)
    ensures
        outcome_is(res, spec_compare(op, cv@, v@)),
        res matches Err(e) ==> e == EvalError::MultipleValues(op),
{
    match cv {
        CompareValue::Value(x) => {
            let r = match op {
                CompareOp::OpIs => match (x, v) {
                    (Literal::Boolean(_), ValueShape::Boolean(_)) => true,
                    (Literal::Integer(_), ValueShape::Integer(_)) => true,
                    (Literal::String(_), ValueShape::String(_)) => true,
                    _ => false,
                },
                CompareOp::OpIn => match (x, v) {
                    (Literal::Boolean(i), ValueShape::Boolean(j)) => *i == *j,
                    (Literal::Integer(i), ValueShape::Integer(j)) => *i == *j,
                    (Literal::String(s), ValueShape::String(b)) => contains_bytes(
                        s.as_slice(),
                        header_bytes(b),
                    ),
                    _ => false,
                },
                CompareOp::OpEq => match (x, v) {
                    (Literal::Boolean(i), ValueShape::Boolean(j)) => *i == *j,
                    (Literal::Integer(i), ValueShape::Integer(j)) => *i == *j,
                    (Literal::String(s), ValueShape::String(b)) => bytes_eq(
                        s.as_slice(),
                        header_bytes(b),
                    ),
                    _ => false,
                },
                CompareOp::OpNeq => match (x, v) {
                    (Literal::Boolean(i), ValueShape::Boolean(j)) => *i != *j,
                    (Literal::Integer(i), ValueShape::Integer(j)) => *i != *j,
                    (Literal::String(s), ValueShape::String(b)) => !bytes_eq(
                        s.as_slice(),
                        header_bytes(b),
                    ),
                    _ => false,
                },
                CompareOp::OpGte => match (x, v) {
                    (Literal::Integer(i), ValueShape::Integer(j)) => *i >= *j,
                    _ => false,
                },
                CompareOp::OpLte => match (x, v) {
                    (Literal::Integer(i), ValueShape::Integer(j)) => *i <= *j,
                    _ => false,
                },
                CompareOp::OpLt => match (x, v) {
                    (Literal::Integer(i), ValueShape::Integer(j)) => *i < *j,
                    _ => false,
                },
                CompareOp::OpGt => match (x, v) {
                    (Literal::Integer(i), ValueShape::Integer(j)) => *i > *j,
                    _ => false,
                },
            };
            Ok(r)
        },
        CompareValue::Values(xs) => match op {
            CompareOp::OpIn => {
                let r = match v {
                    ValueShape::Integer(j) => list_has_integer(xs, *j),
                    ValueShape::String(b) => list_has_string(xs, header_bytes(b)),
                    _ => false,
                };
                Ok(r)
            },
            _ => Err(EvalError::MultipleValues(op)),
        },
    }
}

fn string_len_bytes(s: &String) -> (n: usize)
    ensures
        n == encode_utf8(s@).len(),
{
    header_bytes(s).len()
}

impl Filter {
    /// Whether the filter holds, given the value its selector found in the
    /// header (`None`: there is no value at the selector's path).
    pub fn matches_value(&self, found: &Option<ValueShape>) -> (res: Result<bool, EvalError>)
        ensures
            outcome_is(res, spec_filter_matches(self@, shape_opt_view(*found))),
            res matches Err(e) ==> e == EvalError::MultipleValues(self.compare_operator),
    {
        let v = match found {
            None => {
                return Ok(false);
            },
            Some(v) => v,
        };
        let r = match self.selector.function() {
            None => compare(self.compare_operator, &self.compare_value, v),
            Some(Function::Length) => {
                let len: i64 = match v {
                    ValueShape::Array(n) => *n as i64,
                    ValueShape::String(s) => string_len_bytes(s) as i64,
                    _ => 1,
                };
                compare(self.compare_operator, &self.compare_value, &ValueShape::Integer(len))
            },
            Some(_) => match v {
                ValueShape::Table(n) => compare(
                    self.compare_operator,
                    &self.compare_value,
                    &ValueShape::Array(*n),
                ),
                _ => {
                    return Ok(false);
                },
            },
        };
        match (self.unary, r) {
            (Some(Unary::Not), Ok(b)) => Ok(!b),
            _ => r,
        }
    }

    /// Evaluates the filter on a header: reads the selector's path and
    /// compares what is there.
    pub fn filter(&self, header: &toml::Value) -> (res: Result<bool, EvalError>)
        ensures
            res == spec_filter_on(self@, toml_model(*header)),
    {
        let path = match utf8_str(self.selector.selector_str().as_slice()) {
            Some(p) => p,
            None => {
                return Err(EvalError::InvalidPath);
            },
        };
        proof {
            vstd::utf8::encode_utf8_decode_utf8(path@);
        }
        let found = match read_checked(header, path) {
            Ok(Some(value)) => Some(shape_of(value)),
            Ok(None) => None,
            Err(ReadError::Lookup) => {
                return Err(EvalError::Read);
            },
        };
        assert(shape_opt_view(found) == found_shape_model(
            spec_read(toml_model(*header), decode_utf8(self@.selector.path()))->0,
        ));
        self.matches_value(&found)
    }
}

/// Once the result of a prefix is an error, so is the result of every longer
/// prefix.
proof fn lemma_query_prefix_none(q: SQuery, found: Seq<Option<SValueShape>>, k: nat, j: nat)
    requires
        k <= j,
        spec_query_prefix(q, found, k) is None,
    ensures
        spec_query_prefix(q, found, j) is None,
    decreases j - k,
{
    if k < j {
        lemma_query_prefix_none(q, found, k, (j - 1) as nat);
    }
}

impl Query {
    /// Whether a header matches the query, given what each filter finds in
    /// it: `found[0]` for the first filter, `found[i + 1]` for the `i`-th
    /// joined filter.
    pub fn matches_values(&self, found: &Vec<Option<ValueShape>>) -> (res: Result<bool, EvalError>)
        requires
            found.len() == self.next_filters.len() + 1,
        ensures
            outcome_is(res, spec_query_matches(self@, found_view(found@))),
    {
        let ghost fv = found_view(found@);
        assert(fv[0] == shape_opt_view(found@[0]));
        let mut res = match self.filter.matches_value(&found[0]) {
            Ok(b) => b,
            Err(e) => {
                proof {
                    lemma_query_prefix_none(self@, fv, 0, self.next_filters.len() as nat);
                }
                return Err(e);
            },
        };
        let mut i: usize = 0;
        while i < self.next_filters.len()
            invariant
                i <= self.next_filters.len(),
                found.len() == self.next_filters.len() + 1,
                fv == found_view(found@),
                spec_query_prefix(self@, fv, i as nat) == Some(res),
            decreases self.next_filters.len() - i,
        {
            let op = self.next_filters[i].0;
            let next = &self.next_filters[i].1;
            assert(self@.next_filters[i as int] == (op, next@));
            assert(fv[i + 1] == shape_opt_view(found@[i + 1]));
            match op {
                Operator::Or => {
                    if !res {
                        res = match next.matches_value(&found[i + 1]) {
                            Ok(b) => b,
                            Err(e) => {
                                proof {
                                    lemma_query_prefix_none(
                                        self@,
                                        fv,
                                        (i + 1) as nat,
                                        self.next_filters.len() as nat,
                                    );
                                }
                                return Err(e);
                            },
                        };
                    }
                },
                Operator::And => {
                    if res {
                        res = match next.matches_value(&found[i + 1]) {
                            Ok(b) => b,
                            Err(e) => {
                                proof {
                                    lemma_query_prefix_none(
                                        self@,
                                        fv,
                                        (i + 1) as nat,
                                        self.next_filters.len() as nat,
                                    );
                                }
                                return Err(e);
                            },
                        };
                    }
                },
                Operator::Xor => {
                    let other = match next.matches_value(&found[i + 1]) {
                        Ok(b) => b,
                        Err(e) => {
                            proof {
                                lemma_query_prefix_none(
                                    self@,
                                    fv,
                                    (i + 1) as nat,
                                    self.next_filters.len() as nat,
                                );
                            }
                            return Err(e);
                        },
                    };
                    res = (res && !other) || (!res && other);
                },
            }
            i = i + 1;
        }
        Ok(res)
    }

    /// Evaluates the query on a header: the filters from left to right, each
    /// on the same header, reading only the paths of the filters whose
    /// result is needed.
    pub fn filter(&self, header: &toml::Value) -> (res: Result<bool, EvalError>)
        ensures
            res == spec_query_on(self@, toml_model(*header)),
    {
        let ghost doc = toml_model(*header);
        let mut res = match self.filter.filter(header) {
            Ok(b) => b,
            Err(e) => {
                proof {
                    lemma_query_on_err(self@, doc, 0, self.next_filters.len() as nat);
                }
                return Err(e);
            },
        };
        let mut i: usize = 0;
        while i < self.next_filters.len()
            invariant
                i <= self.next_filters.len(),
                doc == toml_model(*header),
                spec_query_prefix_on(self@, doc, i as nat) == Ok::<bool, EvalError>(res),
            decreases self.next_filters.len() - i,
        {
            let op = self.next_filters[i].0;
            let next = &self.next_filters[i].1;
            assert(self@.next_filters[i as int] == (op, next@));
            let needed = match op {
                Operator::Or => !res,
                Operator::And => res,
                Operator::Xor => true,
            };
            if needed {
                let other = match next.filter(header) {
                    Ok(b) => b,
                    Err(e) => {
                        proof {
                            lemma_query_on_err(
                                self@,
                                doc,
                                (i + 1) as nat,
                                self.next_filters.len() as nat,
                            );
                        }
                        return Err(e);
                    },
                };
                res = match op {
                    Operator::Xor => (res && !other) || (!res && other),
                    _ => other,
                };
            }
            i = i + 1;
        }
        Ok(res)
    }
}

/// Once the first filters of a query give an error, the query gives that
/// error.
proof fn lemma_query_on_err(q: SQuery, doc: SToml, k: nat, j: nat)
    requires
        k <= j,
        spec_query_prefix_on(q, doc, k) is Err,
    ensures
        spec_query_prefix_on(q, doc, j) == spec_query_prefix_on(q, doc, k),
    decreases j - k,
{
    if k < j {
        lemma_query_on_err(q, doc, k, (j - 1) as nat);
    }
}

} // verus!
