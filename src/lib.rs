//! An assertion oracle over schema-less values: walk a value by a path of
//! keys and indices, render it canonically, and compare it with an expected
//! literal under a declared type and operator.

pub mod batch;
pub mod compare;
pub mod error;
pub mod laws;
pub mod msg;
pub mod natural;
pub mod numeric;
pub mod path;
pub mod render;
pub mod text;
pub mod value;

pub use batch::{evaluate_query, run_queries, run_query, Attribute};
pub use compare::{assert_value, compare, compare_number};
pub use error::{ContractError, Operand};
pub use msg::{
    AssertInfo, AssertOperator, DataType, ExecuteMsg, InstantiateMsg, KeyType, PathKey, QueryMsg,
    QueryToAssert,
};
pub use path::get_value_by_path;
pub use render::{convert_value_to_string, is_well_formed};
pub use value::Value;
