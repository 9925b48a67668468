//! The messages of the contract and the pieces a query is made of.

use vstd::prelude::*;

verus! {

/// The instantiation message: it carries nothing.
pub struct InstantiateMsg {}

/// The execution message: a batch of queries to evaluate in order.
pub enum ExecuteMsg {
    Queries { queries: Vec<QueryToAssert> },
}

/// The query message: it carries nothing, and the contract answers no query.
pub struct QueryMsg {}

/// How a path step is applied: as a map key or as an array position.
#[derive(Clone, Copy, Debug, PartialEq, Eq, Structural)]
pub enum KeyType {
    ArrayIndex,
    String,
}

/// One step of a path: its kind and its literal token.
#[derive(Clone, Debug)]
pub struct PathKey {
    pub key_type: KeyType,
    pub value: String,
}

/// The type under which both operands of a comparison are read.
#[derive(Clone, Copy, Debug, PartialEq, Eq, Structural)]
pub enum DataType {
    Int,
    String,
    Decimal,
}

/// The comparison that an assertion asks for, the observed value on the left.
#[derive(Clone, Copy, Debug, PartialEq, Eq, Structural)]
pub enum AssertOperator {
    Lesser,
    LesserEqual,
    Equal,
    Greater,
    GreaterEqual,
}

/// An expected literal, the type it is read as, and the operator to apply.
#[derive(Clone, Debug)]
pub struct AssertInfo {
    pub data_type: DataType,
    pub value: String,
    pub operator: AssertOperator,
}

#[verifier::external_type_specification]
#[verifier::external_body]
#[verifier::reject_recursive_types(C)]
pub struct ExQueryRequest<C>(cosmwasm_std::QueryRequest<C>);

#[verifier::external_type_specification]
#[verifier::external_body]
pub struct ExEmpty(cosmwasm_std::Empty);

/// One query of a batch: what to fetch, an optional path into the fetched
/// value, and an optional assertion on the value reached.
pub struct QueryToAssert {
    pub request: cosmwasm_std::QueryRequest<cosmwasm_std::Empty>,
    pub path_key: Option<Vec<PathKey>>,
    pub assert_with: Option<AssertInfo>,
}

/// The canonical name of an operator.
pub open spec fn operator_name(op: AssertOperator) -> Seq<char> {
    match op {
        AssertOperator::Lesser => "lesser"@,
        AssertOperator::LesserEqual => "lesser_equal"@,
        AssertOperator::Equal => "equal"@,
        AssertOperator::Greater => "greater"@,
        AssertOperator::GreaterEqual => "greater_equal"@,
    }
}

impl AssertOperator {
    /// The canonical name of the operator, as it appears in the attributes.
    pub fn to_string(&self) -> (r: String)
        ensures
            r@ == operator_name(*self),
    {
        match self {
            AssertOperator::Lesser => String::from_str("lesser"),
            AssertOperator::LesserEqual => String::from_str("lesser_equal"),
            AssertOperator::Equal => String::from_str("equal"),
            AssertOperator::Greater => String::from_str("greater"),
            AssertOperator::GreaterEqual => String::from_str("greater_equal"),
        }
    }
}

} // verus!
