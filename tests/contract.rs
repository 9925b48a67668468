use std::str::FromStr;

use asserter::{convert_value_to_string, Value};
use cosmwasm_std::{Decimal, Uint128};

#[test]
fn test() {
    let a = Value::String("100".to_string());
    let a = convert_value_to_string(a).unwrap();
    assert_eq!(a, "100".to_string());
    Decimal::from_str(&a).unwrap();
    Uint128::from_str(&a).unwrap();

    let a = Value::Object(vec![
        ("val_num".to_string(), Value::Number(1)),
        ("val_str".to_string(), Value::String("str".to_string())),
    ]);
    let a = convert_value_to_string(a).unwrap();
    assert_eq!("{val_num:1,val_str:str}", a)
}
