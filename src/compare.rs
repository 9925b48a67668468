//! The typed comparator: both operands read under a declared type, then
//! compared under an operator.

use vstd::prelude::*;
use core::cmp::Ordering;
use crate::error::{ContractError, Failure, Operand};
use crate::msg::{AssertInfo, AssertOperator, DataType};
use crate::natural::{compare_canonical, int_order, lemma_writing_is_canonical, nat_of, read_natural};
use crate::numeric::{decimal_of, decimal_text, decimal_to_string, parse_decimal};
use crate::path::agrees;
use crate::render::{convert_value_to_string, render};
use crate::text::decimal_digits;
use crate::value::{well_formed, Value};

verus! {

/// Whether `op` accepts a left operand that stands in order `ord` to the right one.
pub open spec fn op_holds(op: AssertOperator, ord: Ordering) -> bool {
    match op {
        AssertOperator::Lesser => ord == Ordering::Less,
        AssertOperator::LesserEqual => ord != Ordering::Greater,
        AssertOperator::Equal => ord == Ordering::Equal,
        AssertOperator::Greater => ord == Ordering::Greater,
        AssertOperator::GreaterEqual => ord != Ordering::Less,
    }
}

/// The lexicographic order of two strings, character by character.
pub open spec fn lex_order(a: Seq<char>, b: Seq<char>) -> Ordering
    decreases a.len(),
{
    if a.len() == 0 {
        if b.len() == 0 {
            Ordering::Equal
        } else {
            Ordering::Less
        }
    } else if b.len() == 0 {
        Ordering::Greater
    } else if a[0] != b[0] {
        int_order(a[0] as int, b[0] as int)
    } else {
        lex_order(a.drop_first(), b.drop_first())
    }
}

/// The outcome of comparing `observed` with `expected` under `t` and `op`.
/// A failed comparison carries both operands as the declared type writes them.
pub open spec fn compare_spec(
    observed: Seq<char>,
    expected: Seq<char>,
    t: DataType,
    op: AssertOperator,
) -> Result<(), Failure> {
    match t {
        DataType::String => if op_holds(op, lex_order(observed, expected)) {
            Ok(())
        } else {
            Err(Failure::AssertFailed { value_origin: observed, value_to_compare: expected, operator: op })
        },
        DataType::Int => match nat_of(observed) {
            None => Err(Failure::InvalidNumericLiteral { which: Operand::Observed }),
            Some(a) => match nat_of(expected) {
                None => Err(Failure::InvalidNumericLiteral { which: Operand::Expected }),
                Some(b) => if op_holds(op, int_order(a as int, b as int)) {
                    Ok(())
                } else {
                    Err(
                        Failure::AssertFailed {
                            value_origin: decimal_digits(a),
                            value_to_compare: decimal_digits(b),
                            operator: op,
                        },
                    )
                },
            },
        },
        DataType::Decimal => match decimal_of(observed) {
            None => Err(Failure::InvalidNumericLiteral { which: Operand::Observed }),
            Some(a) => match decimal_of(expected) {
                None => Err(Failure::InvalidNumericLiteral { which: Operand::Expected }),
                Some(b) => if op_holds(op, int_order(a as int, b as int)) {
                    Ok(())
                } else {
                    Err(
                        Failure::AssertFailed {
                            value_origin: decimal_text(a),
                            value_to_compare: decimal_text(b),
                            operator: op,
                        },
                    )
                },
            },
        },
    }
}

/// The outcome of checking a value against an assertion: its canonical
/// string and the expected literal, or the first error met.
pub open spec fn assert_spec(v: Value, info: AssertInfo) -> Result<(Seq<char>, Seq<char>), Failure> {
    match render(v) {
        None => Err(Failure::UnsupportedType),
        Some(s) => match compare_spec(s, info.value@, info.data_type, info.operator) {
            Ok(_) => Ok((s, info.value@)),
            Err(e) => Err(e),
        },
    }
}

fn order_u128(a: u128, b: u128) -> (r: Ordering)
    ensures
        r == int_order(a as int, b as int),
{
    if a < b {
        Ordering::Less
    } else if a == b {
        Ordering::Equal
    } else {
        Ordering::Greater
    }
}

/// The lexicographic order of two strings.
pub fn lex_compare(a: &str, b: &str) -> (r: Ordering)
    ensures
        r == lex_order(a@, b@),
{
    let n = a.unicode_len();
    let m = b.unicode_len();
    let mut i: usize = 0;
    proof {
        assert(a@.skip(0) =~= a@);
        assert(b@.skip(0) =~= b@);
    }
    while i < n && i < m && a.get_char(i) == b.get_char(i)
        invariant
            n == a@.len(),
            m == b@.len(),
            i <= n,
            i <= m,
            lex_order(a@, b@) == lex_order(a@.skip(i as int), b@.skip(i as int)),
        decreases n - i,
    {
        proof {
            assert(a@.skip(i as int).drop_first() =~= a@.skip(i + 1));
            assert(b@.skip(i as int).drop_first() =~= b@.skip(i + 1));
        }
        i += 1;
    }
    if i == n {
        if i == m {
            Ordering::Equal
        } else {
            Ordering::Less
        }
    } else if i == m {
        Ordering::Greater
    } else {
        let x = a.get_char(i);
        let y = b.get_char(i);
        assert(a@.skip(i as int)[0] == x && b@.skip(i as int)[0] == y);
        order_u128(x as u128, y as u128)
    }
}

/// Succeeds where `operator` accepts a left operand in order `ordering` to
/// the right one; otherwise fails with `AssertFailed`, carrying the two
/// operands as written and the operator.
pub fn compare_number(
    ordering: Ordering,
    value_origin: String,
    value_to_compare: String,
    operator: AssertOperator,
) -> (r: Result<(), ContractError>)
    ensures
        r is Ok <==> op_holds(operator, ordering),
        r is Err ==> r->Err_0@ == (Failure::AssertFailed {
            value_origin: value_origin@,
            value_to_compare: value_to_compare@,
            operator,
        }),
{
    let holds = match operator {
        AssertOperator::Lesser => matches!(ordering, Ordering::Less),
        AssertOperator::LesserEqual => !matches!(ordering, Ordering::Greater),
        AssertOperator::Equal => matches!(ordering, Ordering::Equal),
        AssertOperator::Greater => matches!(ordering, Ordering::Greater),
        AssertOperator::GreaterEqual => !matches!(ordering, Ordering::Less),
    };
    if holds {
        Ok(())
    } else {
        Err(ContractError::AssertFailed { value_origin, value_to_compare, operator })
    }
}

/// Compares `observed` with `expected`, both read under `data_type`: as plain
/// strings in lexicographic order, as unsigned integers of any size, or as
/// 18-place decimals.
pub fn compare(
    observed: &str,
    expected: &str,
    data_type: DataType,
    operator: AssertOperator,
) -> (r: Result<(), ContractError>)
    ensures
        agrees(r, compare_spec(observed@, expected@, data_type, operator)),
{
    match data_type {
        DataType::String => compare_number(
            lex_compare(observed, expected),
            String::from_str(observed),
            String::from_str(expected),
            operator,
        ),
        DataType::Int => {
            let a = match read_natural(observed) {
                Some(a) => a,
                None => {
                    return Err(ContractError::InvalidNumericLiteral { which: Operand::Observed });
                },
            };
            let b = match read_natural(expected) {
                Some(b) => b,
                None => {
                    return Err(ContractError::InvalidNumericLiteral { which: Operand::Expected });
                },
            };
            proof {
                lemma_writing_is_canonical(nat_of(observed@)->Some_0);
                lemma_writing_is_canonical(nat_of(expected@)->Some_0);
            }
            let ordering = compare_canonical(a.as_str(), b.as_str());
            compare_number(ordering, a, b, operator)
        },
        DataType::Decimal => {
            let a = match parse_decimal(observed) {
                Some(a) => a,
                None => {
                    return Err(ContractError::InvalidNumericLiteral { which: Operand::Observed });
                },
            };
            let b = match parse_decimal(expected) {
                Some(b) => b,
                None => {
                    return Err(ContractError::InvalidNumericLiteral { which: Operand::Expected });
                },
            };
            compare_number(order_u128(a, b), decimal_to_string(a), decimal_to_string(b), operator)
        },
    }
}

/// Renders `val` canonically and compares it with the assertion's literal.
/// On success it returns the rendered value and the literal.
pub fn assert_value(val: Value, assert_info: AssertInfo) -> (r: Result<(String, String), ContractError>)
    requires
        well_formed(val),
    ensures
        match r {
            Ok((s, c)) => assert_spec(val, assert_info) == Ok::<(Seq<char>, Seq<char>), Failure>(
                (s@, c@),
            ),
            Err(e) => assert_spec(val, assert_info) == Err::<(Seq<char>, Seq<char>), Failure>(e@),
        },
{
    let val_string = match convert_value_to_string(val) {
        Ok(s) => s,
        Err(e) => {
            return Err(e);
        },
    };
    match compare(
        val_string.as_str(),
        assert_info.value.as_str(),
        assert_info.data_type,
        assert_info.operator,
    ) {
        Ok(()) => Ok((val_string, assert_info.value)),
        Err(e) => Err(e),
    }
}

} // verus!
