use asserter::{
    run_queries, AssertInfo, AssertOperator, Attribute, ContractError, DataType, KeyType, Operand,
    PathKey, QueryToAssert, Value,
};
use cosmwasm_std::{Binary, Empty, QueryRequest, WasmQuery};

fn request(msg: &str) -> QueryRequest<Empty> {
    QueryRequest::Wasm(WasmQuery::Smart {
        contract_addr: "mock".to_string(),
        msg: Binary::from(msg.as_bytes().to_vec()),
    })
}

fn key(name: &str) -> PathKey {
    PathKey { key_type: KeyType::String, value: name.to_string() }
}

fn index(token: &str) -> PathKey {
    PathKey { key_type: KeyType::ArrayIndex, value: token.to_string() }
}

fn assert_info(data_type: DataType, value: &str, operator: AssertOperator) -> AssertInfo {
    AssertInfo { data_type, value: value.to_string(), operator }
}

fn query(path: Option<Vec<PathKey>>, assert_with: Option<AssertInfo>) -> QueryToAssert {
    QueryToAssert { request: request("{\"get_state\":{}}"), path_key: path, assert_with }
}

fn state() -> Value {
    Value::Object(vec![
        ("amount".to_string(), Value::String("1.2".to_string())),
        (
            "list".to_string(),
            Value::Array(vec![
                Value::String("pippo".to_string()),
                Value::String("pluto".to_string()),
            ]),
        ),
        ("owner".to_string(), Value::String("addr1".to_string())),
    ])
}

fn find<'a>(attrs: &'a [Attribute], key: &str) -> Option<&'a str> {
    attrs.iter().find(|a| a.key == key).map(|a| a.value.as_str())
}

#[test]
fn main() {
    // single value
    let q = QueryToAssert {
        request: request("{\"get_value\":{}}"),
        path_key: None,
        assert_with: Some(assert_info(DataType::Int, "100", AssertOperator::Equal)),
    };
    run_queries(vec![(q, Ok(Value::String("100".to_string())))]).unwrap();

    // string from a key of a struct
    let q = query(
        Some(vec![key("owner")]),
        Some(assert_info(DataType::String, "addr1", AssertOperator::Equal)),
    );
    run_queries(vec![(q, Ok(state()))]).unwrap();

    // index from a key of a struct
    let q = query(
        Some(vec![key("list"), index("1")]),
        Some(assert_info(DataType::String, "pluto", AssertOperator::Equal)),
    );
    run_queries(vec![(q, Ok(state()))]).unwrap();
}

#[test]
fn integer_equal_records_value_compare_and_operator() {
    let q = query(None, Some(assert_info(DataType::Int, "100", AssertOperator::Equal)));
    let attrs = run_queries(vec![(q, Ok(Value::Number(100)))]).unwrap();
    let keys: Vec<&str> = attrs.iter().map(|a| a.key.as_str()).collect();
    assert_eq!(keys, vec!["query_0_request", "query_0_value", "query_0_compare", "query_0_operator"]);
    assert_eq!(find(&attrs, "query_0_value"), Some("100"));
    assert_eq!(find(&attrs, "query_0_compare"), Some("100"));
    assert_eq!(find(&attrs, "query_0_operator"), Some("equal"));
}

#[test]
fn owner_key_path_is_recorded() {
    let q = query(
        Some(vec![key("owner")]),
        Some(assert_info(DataType::String, "addr1", AssertOperator::Equal)),
    );
    let attrs = run_queries(vec![(q, Ok(state()))]).unwrap();
    assert_eq!(find(&attrs, "query_0_key_path"), Some("owner"));
    assert_eq!(find(&attrs, "query_0_value"), Some("addr1"));
}

#[test]
fn list_index_key_path_is_joined() {
    let q = query(
        Some(vec![key("list"), index("1")]),
        Some(assert_info(DataType::String, "pluto", AssertOperator::Equal)),
    );
    let attrs = run_queries(vec![(q, Ok(state()))]).unwrap();
    assert_eq!(find(&attrs, "query_0_key_path"), Some("list->1"));
    assert_eq!(find(&attrs, "query_0_value"), Some("pluto"));
}

#[test]
fn integer_greater_than_smaller_literal_passes() {
    let q = query(None, Some(assert_info(DataType::Int, "50", AssertOperator::Greater)));
    let attrs = run_queries(vec![(q, Ok(Value::Number(100)))]).unwrap();
    assert_eq!(find(&attrs, "query_0_operator"), Some("greater"));
}

#[test]
fn missing_key_aborts_the_batch() {
    let q = query(Some(vec![key("missing")]), None);
    let r = run_queries(vec![(q, Ok(state()))]);
    assert!(matches!(r, Err(ContractError::KeyNotFound { ref key }) if key == "missing"));
}

#[test]
fn string_read_as_integer_is_invalid_literal() {
    let q = query(None, Some(assert_info(DataType::Int, "100", AssertOperator::Equal)));
    let r = run_queries(vec![(q, Ok(Value::String("str".to_string())))]);
    assert!(matches!(r, Err(ContractError::InvalidNumericLiteral { which: Operand::Observed })));
}

#[test]
fn later_failure_discards_earlier_attributes() {
    let good = query(None, Some(assert_info(DataType::Int, "100", AssertOperator::Equal)));
    let bad = query(None, Some(assert_info(DataType::Int, "101", AssertOperator::Equal)));
    let last = query(None, None);
    let r = run_queries(vec![
        (good, Ok(Value::Number(100))),
        (bad, Ok(Value::Number(100))),
        (last, Ok(Value::Number(1))),
    ]);
    assert!(matches!(r, Err(ContractError::AssertFailed { .. })));
}

#[test]
fn batch_attributes_are_numbered_in_order() {
    let first = query(None, None);
    let second = query(Some(vec![key("owner")]), None);
    let attrs = run_queries(vec![(first, Ok(Value::Number(-12))), (second, Ok(state()))]).unwrap();
    let keys: Vec<&str> = attrs.iter().map(|a| a.key.as_str()).collect();
    assert_eq!(
        keys,
        vec!["query_0_request", "query_0_value", "query_1_request", "query_1_key_path", "query_1_value"]
    );
    assert_eq!(find(&attrs, "query_0_value"), Some("-12"));
    assert_eq!(find(&attrs, "query_1_value"), Some("addr1"));
    assert!(find(&attrs, "query_0_request").unwrap().contains("mock"));
}

#[test]
fn fetch_failure_is_terminal() {
    let first = query(None, None);
    let second = query(None, None);
    let r = run_queries(vec![
        (first, Err("no such contract".to_string())),
        (second, Ok(Value::Number(1))),
    ]);
    assert!(matches!(r, Err(ContractError::Std { ref message }) if message == "no such contract"));
}

#[test]
fn empty_batch_has_no_attributes() {
    assert!(run_queries(vec![]).unwrap().is_empty());
}
