//! The errors of the engine, and their mathematical view.

use vstd::prelude::*;
use crate::msg::AssertOperator;

verus! {

/// Which operand of a comparison failed to parse.
#[derive(Clone, Copy, Debug, PartialEq, Eq, Structural)]
pub enum Operand {
    Observed,
    Expected,
}

/// Every way in which a batch can fail. Each one is fatal to the batch.
#[derive(Clone, Debug)]
pub enum ContractError {
    /// The host could not resolve a query.
    Std { message: String },
    /// A named key is absent from the map it is looked up in.
    KeyNotFound { key: String },
    /// An index step points past the end of an array, or into a map.
    IndexOutOfRange { index: String },
    /// An index token is not a non-negative decimal integer.
    MalformedIndex { token: String },
    /// A step is applied to a scalar, or a named key to an array.
    NotIndexable { step: String },
    /// A boolean or a null has no canonical string form.
    UnsupportedType {},
    /// An operand does not parse under the declared numeric type.
    InvalidNumericLiteral { which: Operand },
    /// Both operands parsed and the comparison does not hold.
    AssertFailed { value_origin: String, value_to_compare: String, operator: AssertOperator },
}

/// The view of an error: its variant, with each string seen as its characters.
pub enum Failure {
    Std { message: Seq<char> },
    KeyNotFound { key: Seq<char> },
    IndexOutOfRange { index: Seq<char> },
    MalformedIndex { token: Seq<char> },
    NotIndexable { step: Seq<char> },
    UnsupportedType,
    InvalidNumericLiteral { which: Operand },
    AssertFailed { value_origin: Seq<char>, value_to_compare: Seq<char>, operator: AssertOperator },
}

impl View for ContractError {
    type V = Failure;

    open spec fn view(&self) -> Failure {
        match self {
            ContractError::Std { message } => Failure::Std { message: message@ },
            ContractError::KeyNotFound { key } => Failure::KeyNotFound { key: key@ },
            ContractError::IndexOutOfRange { index } => Failure::IndexOutOfRange { index: index@ },
            ContractError::MalformedIndex { token } => Failure::MalformedIndex { token: token@ },
            ContractError::NotIndexable { step } => Failure::NotIndexable { step: step@ },
            ContractError::UnsupportedType {} => Failure::UnsupportedType,
            ContractError::InvalidNumericLiteral { which } => Failure::InvalidNumericLiteral {
                which: *which,
            },
            ContractError::AssertFailed { value_origin, value_to_compare, operator } =>
                Failure::AssertFailed {
                value_origin: value_origin@,
                value_to_compare: value_to_compare@,
                operator: *operator,
            },
        }
    }
}

} // verus!
