use asserter::{
    assert_value, compare, compare_number, convert_value_to_string, evaluate_query,
    get_value_by_path, is_well_formed, AssertInfo, AssertOperator, ContractError, DataType, KeyType, Operand,
    PathKey, Value,
};
use std::cmp::Ordering;

fn key(name: &str) -> PathKey {
    PathKey { key_type: KeyType::String, value: name.to_string() }
}

fn index(token: &str) -> PathKey {
    PathKey { key_type: KeyType::ArrayIndex, value: token.to_string() }
}

fn s(text: &str) -> Value {
    Value::String(text.to_string())
}

fn nested() -> Value {
    Value::Object(vec![(
        "a".to_string(),
        Value::Array(vec![
            Value::Number(7),
            Value::Object(vec![("b".to_string(), s("deep"))]),
        ]),
    )])
}

fn render(v: Value) -> String {
    convert_value_to_string(v).unwrap()
}

#[test]
fn path_reaches_nested_value_with_trace() {
    let (v, trace) = get_value_by_path(nested(), vec![key("a"), index("1"), key("b")]).unwrap();
    assert_eq!(render(v), "deep");
    assert_eq!(trace, "a->1->b");
}

#[test]
fn empty_path_returns_value_and_empty_trace() {
    let (v, trace) = get_value_by_path(Value::Number(5), vec![]).unwrap();
    assert_eq!(render(v), "5");
    assert_eq!(trace, "");
}

#[test]
fn index_equal_to_length_is_out_of_range() {
    let arr = Value::Array(vec![s("x"), s("y")]);
    let r = get_value_by_path(arr, vec![index("2")]);
    assert!(matches!(r, Err(ContractError::IndexOutOfRange { ref index }) if index == "2"));
}

#[test]
fn last_index_is_in_range() {
    let arr = Value::Array(vec![s("x"), s("y")]);
    let (v, _) = get_value_by_path(arr, vec![index("01")]).unwrap();
    assert_eq!(render(v), "y");
}

#[test]
fn huge_index_is_out_of_range() {
    let arr = Value::Array(vec![s("x")]);
    let r = get_value_by_path(arr, vec![index("99999999999999999999999999999")]);
    assert!(matches!(r, Err(ContractError::IndexOutOfRange { .. })));
}

#[test]
fn index_into_map_is_out_of_range() {
    let r = get_value_by_path(nested(), vec![index("0")]);
    assert!(matches!(r, Err(ContractError::IndexOutOfRange { .. })));
}

#[test]
fn named_key_into_array_is_not_indexable() {
    let arr = Value::Array(vec![s("x")]);
    let r = get_value_by_path(arr, vec![key("x")]);
    assert!(matches!(r, Err(ContractError::NotIndexable { ref step }) if step == "x"));
}

#[test]
fn step_into_scalar_is_not_indexable() {
    let r = get_value_by_path(Value::Number(3), vec![index("0")]);
    assert!(matches!(r, Err(ContractError::NotIndexable { .. })));
}

#[test]
fn malformed_index_tokens_are_rejected() {
    for bad in ["", "-1", "x", "1a", "+1"] {
        let arr = Value::Array(vec![s("x"), s("y")]);
        let r = get_value_by_path(arr, vec![index(bad)]);
        assert!(matches!(r, Err(ContractError::MalformedIndex { ref token }) if token == bad));
    }
}

#[test]
fn first_failing_step_decides_the_error() {
    let r = get_value_by_path(nested(), vec![key("zz"), index("x")]);
    assert!(matches!(r, Err(ContractError::KeyNotFound { ref key }) if key == "zz"));
}

#[test]
fn maps_need_unique_ascending_keys() {
    assert!(is_well_formed(&nested()));
    let dup = Value::Object(vec![("k".to_string(), s("one")), ("k".to_string(), s("two"))]);
    assert!(!is_well_formed(&dup));
    let unsorted = Value::Object(vec![("b".to_string(), s("one")), ("a".to_string(), s("two"))]);
    assert!(!is_well_formed(&unsorted));
    let inner = Value::Array(vec![unsorted]);
    assert!(!is_well_formed(&inner));
    let sorted = Value::Object(vec![("a".to_string(), s("one")), ("ab".to_string(), s("two"))]);
    assert!(is_well_formed(&sorted));
}

#[test]
fn rendering_forms() {
    assert_eq!(render(s("a\"b")), "a\"b");
    assert_eq!(render(Value::Number(-42)), "-42");
    assert_eq!(render(Value::Number(0)), "0");
    assert_eq!(render(Value::Number(i128::MIN)), "-170141183460469231731687303715884105728");
    assert_eq!(render(Value::Array(vec![])), "[]");
    assert_eq!(render(Value::Object(vec![])), "{}");
    assert_eq!(render(nested()), "{a:[7,{b:deep}]}");
}

#[test]
fn rendering_is_deterministic() {
    assert_eq!(render(nested()), render(nested()));
}

#[test]
fn booleans_and_nulls_have_no_canonical_form() {
    assert!(matches!(convert_value_to_string(Value::Bool(true)), Err(ContractError::UnsupportedType {})));
    assert!(matches!(convert_value_to_string(Value::Null), Err(ContractError::UnsupportedType {})));
    let inner = Value::Array(vec![s("x"), Value::Null]);
    assert!(matches!(convert_value_to_string(inner), Err(ContractError::UnsupportedType {})));
}

#[test]
fn string_operators_use_lexical_order() {
    assert!(compare("abc", "abd", DataType::String, AssertOperator::Lesser).is_ok());
    assert!(compare("ab", "abc", DataType::String, AssertOperator::Lesser).is_ok());
    assert!(compare("b", "abc", DataType::String, AssertOperator::GreaterEqual).is_ok());
    assert!(compare("10", "9", DataType::String, AssertOperator::Lesser).is_ok());
    let r = compare("abc", "abd", DataType::String, AssertOperator::Equal);
    assert!(matches!(r, Err(ContractError::AssertFailed { ref value_origin, ref value_to_compare, operator: AssertOperator::Equal }) if value_origin == "abc" && value_to_compare == "abd"));
}

#[test]
fn integer_comparisons() {
    assert!(compare("10", "9", DataType::Int, AssertOperator::Greater).is_ok());
    assert!(compare("+5", "5", DataType::Int, AssertOperator::Equal).is_ok());
    assert!(compare("5", "5", DataType::Int, AssertOperator::LesserEqual).is_ok());
    assert!(compare("5", "5", DataType::Int, AssertOperator::GreaterEqual).is_ok());
    assert!(compare("4", "5", DataType::Int, AssertOperator::Lesser).is_ok());
    let r = compare("5", "4", DataType::Int, AssertOperator::Lesser);
    assert!(matches!(r, Err(ContractError::AssertFailed { .. })));
}

#[test]
fn failed_integer_comparison_rewrites_operands() {
    let r = compare("007", "+8", DataType::Int, AssertOperator::Equal);
    assert!(matches!(r, Err(ContractError::AssertFailed { ref value_origin, ref value_to_compare, .. }) if value_origin == "7" && value_to_compare == "8"));
}

#[test]
fn invalid_integer_literals() {
    let r = compare("-1", "1", DataType::Int, AssertOperator::Equal);
    assert!(matches!(r, Err(ContractError::InvalidNumericLiteral { which: Operand::Observed })));
    let r = compare("1", "1.5", DataType::Int, AssertOperator::Equal);
    assert!(matches!(r, Err(ContractError::InvalidNumericLiteral { which: Operand::Expected })));
    for bad in ["", "+", "++1", "1 ", "x"] {
        let r = compare(bad, "1", DataType::Int, AssertOperator::Equal);
        assert!(matches!(r, Err(ContractError::InvalidNumericLiteral { which: Operand::Observed })), "{bad}");
    }
}

#[test]
fn integers_beyond_128_bits_compare_exactly() {
    let big = "340282366920938463463374607431768211456";
    assert!(compare(big, big, DataType::Int, AssertOperator::Equal).is_ok());
    assert!(compare(big, "340282366920938463463374607431768211455", DataType::Int, AssertOperator::Greater).is_ok());
    assert!(compare("99999999999999999999999999999999999999999", big, DataType::Int, AssertOperator::Greater).is_ok());
    assert!(compare("0000", "+0", DataType::Int, AssertOperator::Equal).is_ok());
    let r = compare("000123456789012345678901234567890123456789", "9", DataType::Int, AssertOperator::Lesser);
    assert!(matches!(r, Err(ContractError::AssertFailed { ref value_origin, ref value_to_compare, .. }) if value_origin == "123456789012345678901234567890123456789" && value_to_compare == "9"));
}

#[test]
fn decimal_comparisons() {
    assert!(compare("1.5", "1.50", DataType::Decimal, AssertOperator::Equal).is_ok());
    assert!(compare("1.2", "1.21", DataType::Decimal, AssertOperator::Lesser).is_ok());
    assert!(compare("2", "1.999999999999999999", DataType::Decimal, AssertOperator::Greater).is_ok());
    let r = compare("1.21", "1.2", DataType::Decimal, AssertOperator::Lesser);
    assert!(matches!(r, Err(ContractError::AssertFailed { .. })));
}

#[test]
fn failed_decimal_comparison_rewrites_operands() {
    let r = compare("1.200", "003", DataType::Decimal, AssertOperator::Equal);
    assert!(matches!(r, Err(ContractError::AssertFailed { ref value_origin, ref value_to_compare, .. }) if value_origin == "1.2" && value_to_compare == "3"));
}

#[test]
fn invalid_decimal_literals() {
    for bad in ["", ".5", "1.", "1.2.3", "1.1234567890123456789", "abc", "-1"] {
        let r = compare(bad, "1", DataType::Decimal, AssertOperator::Equal);
        assert!(matches!(r, Err(ContractError::InvalidNumericLiteral { which: Operand::Observed })), "{bad}");
    }
    let r = compare("1", "x", DataType::Decimal, AssertOperator::Equal);
    assert!(matches!(r, Err(ContractError::InvalidNumericLiteral { which: Operand::Expected })));
}

#[test]
fn round_trip_through_failure_text() {
    let r = compare("12.5", "0", DataType::Decimal, AssertOperator::Lesser);
    let text = match r {
        Err(ContractError::AssertFailed { value_origin, .. }) => value_origin,
        _ => panic!("expected a failed assertion"),
    };
    assert_eq!(text, "12.5");
    let r = compare(&text, "0", DataType::Decimal, AssertOperator::Lesser);
    assert!(matches!(r, Err(ContractError::AssertFailed { ref value_origin, .. }) if *value_origin == text));
}

#[test]
fn compare_number_applies_each_operator() {
    let ok = |o: Ordering, op: AssertOperator| compare_number(o, "a".to_string(), "b".to_string(), op).is_ok();
    assert!(ok(Ordering::Less, AssertOperator::Lesser));
    assert!(!ok(Ordering::Equal, AssertOperator::Lesser));
    assert!(ok(Ordering::Equal, AssertOperator::LesserEqual));
    assert!(!ok(Ordering::Greater, AssertOperator::LesserEqual));
    assert!(ok(Ordering::Equal, AssertOperator::Equal));
    assert!(ok(Ordering::Greater, AssertOperator::Greater));
    assert!(!ok(Ordering::Equal, AssertOperator::Greater));
    assert!(ok(Ordering::Equal, AssertOperator::GreaterEqual));
    assert!(!ok(Ordering::Less, AssertOperator::GreaterEqual));
}

#[test]
fn operator_names() {
    assert_eq!(AssertOperator::Lesser.to_string(), "lesser");
    assert_eq!(AssertOperator::LesserEqual.to_string(), "lesser_equal");
    assert_eq!(AssertOperator::Equal.to_string(), "equal");
    assert_eq!(AssertOperator::Greater.to_string(), "greater");
    assert_eq!(AssertOperator::GreaterEqual.to_string(), "greater_equal");
}

#[test]
fn assert_value_returns_rendered_value_and_literal() {
    let info = AssertInfo { data_type: DataType::Decimal, value: "1.20".to_string(), operator: AssertOperator::Equal };
    let (v, c) = assert_value(s("1.2"), info).unwrap();
    assert_eq!(v, "1.2");
    assert_eq!(c, "1.20");
}

#[test]
fn evaluate_query_without_assertion_records_value() {
    let attrs = evaluate_query(3, "req".to_string(), Ok(nested()), Some(vec![key("a")]), None).unwrap();
    let pairs: Vec<(&str, &str)> = attrs.iter().map(|a| (a.key.as_str(), a.value.as_str())).collect();
    assert_eq!(
        pairs,
        vec![("query_3_request", "req"), ("query_3_key_path", "a"), ("query_3_value", "[7,{b:deep}]")]
    );
}
