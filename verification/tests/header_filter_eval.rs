use imag::header_filter::ast::{
    CompareOp, CompareValue, Filter, Function, Literal, Operator, Query, Selector, Unary,
};
use imag::header_filter::eval::{compare, EvalError};
use imag::header_filter::grammar::{parse, QueryParseError};
use imag::toml_access::ValueShape;

fn header(text: &str) -> toml::Value {
    text.parse::<toml::Value>().unwrap()
}

fn int_filter(path: &str, op: CompareOp, v: i64) -> Filter {
    Filter {
        unary: None,
        selector: Selector::Direct(path.as_bytes().to_vec()),
        compare_operator: op,
        compare_value: CompareValue::Value(Literal::Integer(v)),
    }
}

#[test]
fn parse_whole_query() {
    let q = parse("length(imag.header) > 12 or imag.foobar <= 125").unwrap();
    assert_eq!(q.filter.selector, Selector::Function(Function::Length, b"imag.header".to_vec()));
    assert_eq!(q.next_filters.len(), 1);
    assert_eq!(q.next_filters[0].0, Operator::Or);
}

#[test]
fn parse_not_filter() {
    // `not` is read directly in front of the selector; no space may follow it.
    let q = parse("notimag.header == 1").unwrap();
    assert_eq!(q.filter.unary, Some(Unary::Not));
    assert_eq!(q.filter.selector, Selector::Direct(b"imag.header".to_vec()));
    assert_eq!(parse("not imag.header == 1"), Err(QueryParseError::Mismatch));
    let mut plain = parse("imag.header == 1").unwrap();
    assert_eq!(plain.filter.unary, None);
    plain.filter.unary = Some(Unary::Not);
    assert_eq!(plain, q);
}

#[test]
fn parse_refuses_empty_text_as_incomplete() {
    assert_eq!(parse(""), Err(QueryParseError::Incomplete));
}

#[test]
fn parse_refuses_missing_operator() {
    assert_eq!(parse("imag.header 1"), Err(QueryParseError::Mismatch));
}

#[test]
fn parse_refuses_too_large_number() {
    assert_eq!(parse("imag.header == 99999999999999999999"), Err(QueryParseError::NumberTooLarge));
}

#[test]
fn eq_and_eq_word_parse_alike() {
    assert_eq!(parse("a.b == 1").unwrap(), parse("a.b eq 1").unwrap());
    assert_eq!(parse("a.b != 1").unwrap(), parse("a.b neq 1").unwrap());
}

#[test]
fn compare_integers() {
    let one = CompareValue::Value(Literal::Integer(1));
    assert_eq!(compare(CompareOp::OpEq, &one, &ValueShape::Integer(1)), Ok(true));
    assert_eq!(compare(CompareOp::OpNeq, &one, &ValueShape::Integer(1)), Ok(false));
    // The query's number is compared with the header's: `sel >= 1` holds where 1 >= value.
    assert_eq!(compare(CompareOp::OpGte, &one, &ValueShape::Integer(0)), Ok(true));
    assert_eq!(compare(CompareOp::OpGte, &one, &ValueShape::Integer(2)), Ok(false));
    assert_eq!(compare(CompareOp::OpLt, &one, &ValueShape::Integer(2)), Ok(true));
    assert_eq!(compare(CompareOp::OpGt, &one, &ValueShape::Integer(0)), Ok(true));
    assert_eq!(compare(CompareOp::OpLte, &one, &ValueShape::Integer(0)), Ok(false));
}

#[test]
fn compare_kinds_and_strings() {
    let s = CompareValue::Value(Literal::String(b"foobar".to_vec()));
    assert_eq!(compare(CompareOp::OpIs, &s, &ValueShape::String("x".to_string())), Ok(true));
    assert_eq!(compare(CompareOp::OpIs, &s, &ValueShape::Integer(3)), Ok(false));
    assert_eq!(compare(CompareOp::OpIn, &s, &ValueShape::String("oba".to_string())), Ok(true));
    assert_eq!(compare(CompareOp::OpIn, &s, &ValueShape::String("baz".to_string())), Ok(false));
    assert_eq!(compare(CompareOp::OpEq, &s, &ValueShape::String("foobar".to_string())), Ok(true));
    assert_eq!(compare(CompareOp::OpEq, &s, &ValueShape::Integer(1)), Ok(false));
    assert_eq!(compare(CompareOp::OpNeq, &s, &ValueShape::Integer(1)), Ok(false));
}

#[test]
fn compare_lists() {
    let l = CompareValue::Values(vec![Literal::Integer(1), Literal::String(b"a".to_vec())]);
    assert_eq!(compare(CompareOp::OpIn, &l, &ValueShape::Integer(1)), Ok(true));
    assert_eq!(compare(CompareOp::OpIn, &l, &ValueShape::Integer(2)), Ok(false));
    assert_eq!(compare(CompareOp::OpIn, &l, &ValueShape::String("a".to_string())), Ok(true));
    assert_eq!(compare(CompareOp::OpIn, &l, &ValueShape::Boolean(true)), Ok(false));
    assert_eq!(
        compare(CompareOp::OpEq, &l, &ValueShape::Integer(1)),
        Err(EvalError::MultipleValues(CompareOp::OpEq))
    );
    assert_eq!(
        compare(CompareOp::OpIs, &l, &ValueShape::Integer(1)),
        Err(EvalError::MultipleValues(CompareOp::OpIs))
    );
}

#[test]
fn filter_on_missing_value_does_not_hold_even_negated() {
    let mut f = int_filter("imag.header", CompareOp::OpEq, 1);
    assert_eq!(f.matches_value(&None), Ok(false));
    f.unary = Some(Unary::Not);
    assert_eq!(f.matches_value(&None), Ok(false));
}

#[test]
fn not_negates_a_found_value() {
    let mut f = int_filter("imag.header", CompareOp::OpEq, 1);
    assert_eq!(f.matches_value(&Some(ValueShape::Integer(1))), Ok(true));
    f.unary = Some(Unary::Not);
    assert_eq!(f.matches_value(&Some(ValueShape::Integer(1))), Ok(false));
    assert_eq!(f.matches_value(&Some(ValueShape::Integer(2))), Ok(true));
}

#[test]
fn length_of_arrays_and_strings() {
    let f = Filter {
        unary: None,
        selector: Selector::Function(Function::Length, b"imag.header".to_vec()),
        compare_operator: CompareOp::OpEq,
        compare_value: CompareValue::Value(Literal::Integer(3)),
    };
    assert_eq!(f.matches_value(&Some(ValueShape::Array(3))), Ok(true));
    assert_eq!(f.matches_value(&Some(ValueShape::String("abc".to_string()))), Ok(true));
    assert_eq!(f.matches_value(&Some(ValueShape::String("äb".to_string()))), Ok(true));
    assert_eq!(f.matches_value(&Some(ValueShape::Boolean(true))), Ok(false));
}

#[test]
fn keys_of_non_table_does_not_hold() {
    let f = Filter {
        unary: Some(Unary::Not),
        selector: Selector::Function(Function::Keys, b"imag.header".to_vec()),
        compare_operator: CompareOp::OpIs,
        compare_value: CompareValue::Value(Literal::Integer(3)),
    };
    assert_eq!(f.matches_value(&Some(ValueShape::Integer(1))), Ok(false));
    // Of a table, `keys(..)` is an array: `is 3` does not hold, so `not` makes it hold.
    assert_eq!(f.matches_value(&Some(ValueShape::Table(2))), Ok(true));
}

#[test]
fn query_or_and_xor() {
    let q = Query {
        filter: int_filter("a", CompareOp::OpEq, 1),
        next_filters: vec![(Operator::Or, int_filter("b", CompareOp::OpEq, 2))],
    };
    let found = vec![Some(ValueShape::Integer(0)), Some(ValueShape::Integer(2))];
    assert_eq!(q.matches_values(&found), Ok(true));

    let q = Query {
        filter: int_filter("a", CompareOp::OpEq, 1),
        next_filters: vec![(Operator::And, int_filter("b", CompareOp::OpEq, 2))],
    };
    assert_eq!(q.matches_values(&found), Ok(false));

    let q = Query {
        filter: int_filter("a", CompareOp::OpEq, 0),
        next_filters: vec![(Operator::Xor, int_filter("b", CompareOp::OpEq, 2))],
    };
    assert_eq!(q.matches_values(&found), Ok(false));
}

#[test]
fn query_or_short_circuits_before_an_error() {
    let bad = Filter {
        unary: None,
        selector: Selector::Direct(b"b".to_vec()),
        compare_operator: CompareOp::OpEq,
        compare_value: CompareValue::Values(vec![Literal::Integer(1)]),
    };
    let q = Query {
        filter: int_filter("a", CompareOp::OpEq, 1),
        next_filters: vec![(Operator::Or, bad)],
    };
    let found = vec![Some(ValueShape::Integer(1)), Some(ValueShape::Integer(1))];
    assert_eq!(q.matches_values(&found), Ok(true));
    let found = vec![Some(ValueShape::Integer(0)), Some(ValueShape::Integer(1))];
    assert_eq!(q.matches_values(&found), Err(EvalError::MultipleValues(CompareOp::OpEq)));
}

#[test]
fn filter_reads_the_header() {
    let h = header("[imag]\nheader = 1\nfoobar = 200\nversion = \"0.7.0\"\nlist = [1, 2, 3]\n");
    let q = parse("imag.header == 1").unwrap();
    assert_eq!(q.filter(&h), Ok(true));
    let q = parse("length(imag.list) > 2 or imag.foobar <= 125").unwrap();
    // 2 > 3 does not hold; 125 <= 200 holds.
    assert_eq!(q.filter(&h), Ok(true));
    let q = parse(r#"imag.version == "0.7.0""#).unwrap();
    assert_eq!(q.filter(&h), Ok(true));
    let q = parse("imag.missing == 1").unwrap();
    assert_eq!(q.filter(&h), Ok(false));
    let q = parse("imag.header in [1, 2]").unwrap();
    assert_eq!(q.filter(&h), Ok(true));
}

#[test]
fn filter_errors() {
    let h = header("[imag]\nheader = 1\n");
    let f = int_filter("imag.header.deeper", CompareOp::OpEq, 1);
    assert_eq!(f.filter(&h), Err(EvalError::Read));
    let f = Filter {
        unary: None,
        selector: Selector::Direct(vec![0xff, 0xfe]),
        compare_operator: CompareOp::OpEq,
        compare_value: CompareValue::Value(Literal::Integer(1)),
    };
    assert_eq!(f.filter(&h), Err(EvalError::InvalidPath));
    let q = parse("imag.header == [1]").unwrap();
    assert_eq!(q.filter(&h), Err(EvalError::MultipleValues(CompareOp::OpEq)));
}

#[test]
fn in_with_one_number_is_equality() {
    let one = CompareValue::Value(Literal::Integer(1));
    for v in [0i64, 1, 2] {
        assert_eq!(
            compare(CompareOp::OpIn, &one, &ValueShape::Integer(v)),
            compare(CompareOp::OpEq, &one, &ValueShape::Integer(v))
        );
    }
    let t = CompareValue::Value(Literal::Boolean(true));
    assert_eq!(compare(CompareOp::OpIn, &t, &ValueShape::Boolean(true)), Ok(true));
    assert_eq!(compare(CompareOp::OpIn, &t, &ValueShape::Boolean(false)), Ok(false));
}

#[test]
fn paths_that_cannot_be_resolved_are_read_errors() {
    let h = header("[imag]\nlist = [1, 2, 3]\n");
    // An index past the end of an array, before further segments.
    let f = int_filter("imag.list.[5].x", CompareOp::OpEq, 1);
    assert_eq!(f.filter(&h), Err(EvalError::Read));
    // An index written with non-ASCII digits.
    let f = int_filter("imag.list.[\u{0661}]", CompareOp::OpEq, 1);
    assert_eq!(f.filter(&h), Err(EvalError::Read));
    // An index that does not fit in usize.
    let f = int_filter("imag.list.[99999999999999999999999]", CompareOp::OpEq, 1);
    assert_eq!(f.filter(&h), Err(EvalError::Read));
    // An index in bounds reads the element.
    let f = int_filter("imag.list.[1]", CompareOp::OpEq, 2);
    assert_eq!(f.filter(&h), Ok(true));
    let f = int_filter("imag.list.[0001]", CompareOp::OpEq, 2);
    assert_eq!(f.filter(&h), Ok(true));
    // The last index past the end is an error of the read itself.
    let f = int_filter("imag.list.[3]", CompareOp::OpEq, 2);
    assert_eq!(f.filter(&h), Err(EvalError::Read));
}

#[test]
fn query_folds_filters_from_the_left() {
    let h = header("a = 1\nb = 2\nc = 3\n");
    // true or true, then and false: false, with no precedence of `and`.
    let q = Query {
        filter: int_filter("a", CompareOp::OpEq, 1),
        next_filters: vec![
            (Operator::Or, int_filter("b", CompareOp::OpEq, 2)),
            (Operator::And, int_filter("c", CompareOp::OpEq, 0)),
        ],
    };
    assert_eq!(q.filter(&h), Ok(false));
    let expected = {
        let r0 = q.filter.filter(&h).unwrap();
        let r1 = r0 || q.next_filters[0].1.filter(&h).unwrap();
        r1 && q.next_filters[1].1.filter(&h).unwrap()
    };
    assert_eq!(q.filter(&h), Ok(expected));
}
