use imag::header_filter::ast::{
    CompareOp, CompareValue, Filter, Function, Literal, Operator, Query, Selector, Unary,
};
use imag::header_filter::grammar::{
    boolean, compare_op, filter, function, integer, list_of_val, operator, parse_query, selector,
    selector_str, string, unary_operator, val,
};

#[test]
fn test_unary() {
    assert_eq!(unary_operator(b"not").done().unwrap().1, Unary::Not);
}

#[test]
fn test_compare_op() {
    assert_eq!(compare_op(b"is").done().unwrap().1, CompareOp::OpIs);
    assert_eq!(compare_op(b"in").done().unwrap().1, CompareOp::OpIn);
    assert_eq!(compare_op(b"==").done().unwrap().1, CompareOp::OpEq);
    assert_eq!(compare_op(b"eq").done().unwrap().1, CompareOp::OpEq);
    assert_eq!(compare_op(b"!=").done().unwrap().1, CompareOp::OpNeq);
    assert_eq!(compare_op(b"neq").done().unwrap().1, CompareOp::OpNeq);
    assert_eq!(compare_op(b">=").done().unwrap().1, CompareOp::OpGte);
    assert_eq!(compare_op(b"<=").done().unwrap().1, CompareOp::OpLte);
    assert_eq!(compare_op(b"<").done().unwrap().1, CompareOp::OpLt);
    assert_eq!(compare_op(b">").done().unwrap().1, CompareOp::OpGt);
}

#[test]
fn test_operator() {
    assert_eq!(operator(b"or").done().unwrap().1, Operator::Or);
    assert_eq!(operator(b"and").done().unwrap().1, Operator::And);
    assert_eq!(operator(b"xor").done().unwrap().1, Operator::Xor);
}

#[test]
fn test_function() {
    assert_eq!(function(b"length").done().unwrap().1, Function::Length);
    assert_eq!(function(b"keys").done().unwrap().1, Function::Keys);
    assert_eq!(function(b"values").done().unwrap().1, Function::Values);
}

#[test]
fn test_integer() {
    assert_eq!(integer(b"12").done().unwrap().1, 12);
    assert_eq!(integer(b"11292").done().unwrap().1, 11292);
    assert_eq!(integer(b"-12").done().unwrap().1, -12);
    assert_eq!(integer(b"10101012").done().unwrap().1, 10101012);
}

#[test]
fn test_string() {
    assert_eq!(string(b"\"foo\"").done().unwrap().1, b"foo".to_vec());
}

#[test]
fn test_boolean() {
    assert_eq!(boolean(b"false").done().unwrap().1, false);
    assert_eq!(boolean(b"true").done().unwrap().1, true);
}

#[test]
fn test_val() {
    assert_eq!(val(b"false").done().unwrap().1, Literal::Boolean(false));
    assert_eq!(val(b"true").done().unwrap().1, Literal::Boolean(true));
    assert_eq!(val(b"12").done().unwrap().1, Literal::Integer(12));
    assert_eq!(val(b"\"foobar\"").done().unwrap().1, Literal::String(b"foobar".to_vec()));
}

#[test]
fn test_list_of_val() {
    {
        let list = list_of_val(b"[]");
        println!("list: {:?}", list);
        let vals = list.done().unwrap().1;
        assert_eq!(vals, vec![]);
    }

    {
        let list = list_of_val(b"[1]");
        println!("list: {:?}", list);
        let vals = list.done().unwrap().1;
        assert_eq!(vals, vec![Literal::Integer(1)]);
    }

    {
        let list = list_of_val(b"[12,13]");
        println!("list: {:?}", list);
        let vals = list.done().unwrap().1;
        assert_eq!(vals, vec![Literal::Integer(12), Literal::Integer(13)]);
    }

    {
        let vals = list_of_val(b"[\"foobar\",\"bazbaz\"]").done().unwrap().1;
        let expt = vec![Literal::String(b"foobar".to_vec()), Literal::String(b"bazbaz".to_vec())];
        assert_eq!(vals, expt)
    }

    {
        let vals = list_of_val(b"[\"1\", \"2\"]").done().unwrap().1;
        let expt = vec![Literal::String(b"1".to_vec()), Literal::String(b"2".to_vec())];
        assert_eq!(vals, expt)
    }
}

#[test]
fn test_selector_str() {
    assert_eq!(selector_str(b"foo.bar baz").done().unwrap().1, b"foo.bar".to_vec());
}

#[test]
fn test_selector() {
    assert_eq!(
        selector(b"foo.bar baz").done().unwrap().1,
        Selector::Direct(b"foo.bar".to_vec())
    );

    assert_eq!(function(b"length").done().unwrap().1, Function::Length);

    let exp = Selector::Function(Function::Length, b"foo.bar".to_vec());
    assert_eq!(selector(b"length(foo.bar)").done().unwrap().1, exp);
}

#[test]
fn test_filter_1() {
    let text = b"imag.header == 1";
    let exp = Filter {
        unary: None,
        selector: Selector::Direct(b"imag.header".to_vec()),
        compare_operator: CompareOp::OpEq,
        compare_value: CompareValue::Value(Literal::Integer(1)),
    };

    let parsed = filter(text);
    assert_eq!(parsed.done().unwrap().1, exp);
}

#[test]
fn test_filter_2() {
    let text = b"imag.header in [1, 2]";
    let exp = Filter {
        unary: None,
        selector: Selector::Direct(b"imag.header".to_vec()),
        compare_operator: CompareOp::OpIn,
        compare_value: CompareValue::Values(vec![Literal::Integer(1), Literal::Integer(2)]),
    };

    let parsed = filter(text);
    assert_eq!(parsed.done().unwrap().1, exp);
}

#[test]
fn test_filter_3() {
    let text = b"length(imag.header) > 12";
    let exp = Filter {
        unary: None,
        selector: Selector::Function(Function::Length, b"imag.header".to_vec()),
        compare_operator: CompareOp::OpGt,
        compare_value: CompareValue::Value(Literal::Integer(12)),
    };

    let parsed = filter(text);
    assert_eq!(parsed.done().unwrap().1, exp);
}

#[test]
fn test_query_1() {
    let text = b"length(imag.header) > 12 or imag.foobar <= 125";

    let filter_1 = Filter {
        unary: None,
        selector: Selector::Function(Function::Length, b"imag.header".to_vec()),
        compare_operator: CompareOp::OpGt,
        compare_value: CompareValue::Value(Literal::Integer(12)),
    };

    let filter_2 = Filter {
        unary: None,
        selector: Selector::Direct(b"imag.foobar".to_vec()),
        compare_operator: CompareOp::OpLte,
        compare_value: CompareValue::Value(Literal::Integer(125)),
    };

    let operator = Operator::Or;

    let query = Query { filter: filter_1, next_filters: vec![(operator, filter_2)] };

    let parsed = parse_query(text);
    assert_eq!(parsed.done().unwrap().1, query);
}

#[test]
fn test_query_2() {
    let text = r#"imag.version == "0.7.0""#;

    let filter_1 = Filter {
        unary: None,
        selector: Selector::Direct(b"imag.version".to_vec()),
        compare_operator: CompareOp::OpEq,
        compare_value: CompareValue::Value(Literal::String(b"0.7.0".to_vec())),
    };

    let query = Query { filter: filter_1, next_filters: vec![] };

    let parsed = parse_query(text.as_bytes());
    assert_eq!(parsed.done().unwrap().1, query);
}
