//! Laws that relate the engine's functions to one another.

use vstd::prelude::*;
use crate::batch::{batch_outcome, body_of, lemma_batch_stays_failed};
use crate::compare::compare_spec;
use crate::error::Failure;
use crate::msg::{AssertOperator, DataType, KeyType, PathKey, QueryToAssert};
use crate::natural::{lemma_writing_is_canonical, nat_of};
use crate::numeric::{decimal_of, decimal_text, lemma_decimal_of_text};
use crate::path::{index_token_ok, step_spec};
use crate::render::render;
use crate::text::{decimal_digits, digits_value};
use crate::value::Value;

verus! {

/// The number that `s` denotes under a numeric type: a natural of any size,
/// or the atomics of a decimal.
pub open spec fn numeric_value(t: DataType, s: Seq<char>) -> Option<nat> {
    match t {
        DataType::Int => nat_of(s),
        DataType::Decimal => match decimal_of(s) {
            Some(a) => Some(a as nat),
            None => None,
        },
        DataType::String => None,
    }
}

/// The canonical string of a value depends on the value alone: equal values
/// render alike, or both fail to render.
pub proof fn canonical_string_is_deterministic(v: Value, w: Value)
    requires
        v == w,
    ensures
        render(v) == render(w),
{
}

/// Under a numeric type, two literals of equal value pass `Equal`; where the
/// first is below the second, it passes `Lesser` against the second, and the
/// second, against the first, fails with `AssertFailed`.
pub proof fn numeric_comparison_laws(t: DataType, a: Seq<char>, b: Seq<char>)
    requires
        t != DataType::String,
        numeric_value(t, a) is Some,
        numeric_value(t, b) is Some,
    ensures
        numeric_value(t, a) == numeric_value(t, b) ==> compare_spec(
            a,
            b,
            t,
            AssertOperator::Equal,
        ) is Ok,
        numeric_value(t, a)->Some_0 < numeric_value(t, b)->Some_0 ==> {
            &&& compare_spec(a, b, t, AssertOperator::Lesser) is Ok
            &&& compare_spec(b, a, t, AssertOperator::Lesser) matches Err(
                Failure::AssertFailed { .. },
            )
        },
{
}

/// An index step equal to the length of the array fails with
/// `IndexOutOfRange`.
pub proof fn index_at_length_is_out_of_range(items: Vec<Value>, k: PathKey)
    requires
        k.key_type == KeyType::ArrayIndex,
        index_token_ok(k.value@),
        digits_value(k.value@) == items@.len(),
    ensures
        step_spec(Value::Array(items), k) == Err::<Value, Failure>(
            Failure::IndexOutOfRange { index: k.value@ },
        ),
{
}

/// A named-key step applied to anything but a map fails with `NotIndexable`.
pub proof fn named_key_into_non_map_is_not_indexable(v: Value, k: PathKey)
    requires
        k.key_type == KeyType::String,
        !(v is Object),
    ensures
        step_spec(v, k) == Err::<Value, Failure>(Failure::NotIndexable { step: k.value@ }),
{
}

/// A batch in which any one query fails, wherever it stands, fails as a
/// whole: it yields an error and no attribute of any query.
pub proof fn failing_query_fails_batch(qs: Seq<(QueryToAssert, Result<Value, String>)>, k: int)
    requires
        0 <= k < qs.len(),
        body_of(k as nat, qs[k]) is Err,
    ensures
        batch_outcome(qs) is Err,
{
    assert(qs.take(k + 1).drop_last() =~= qs.take(k));
    assert(qs.take(k + 1).last() == qs[k]);
    lemma_batch_stays_failed(qs, k + 1);
}

/// Writing a natural number, reading the text back and writing the result
/// again gives the first writing, whatever the size of the number.
pub proof fn integer_text_round_trip(x: nat)
    ensures
        nat_of(decimal_digits(x)) == Some(x),
        decimal_digits(nat_of(decimal_digits(x))->Some_0) == decimal_digits(x),
{
    lemma_writing_is_canonical(x);
    assert(decimal_digits(x)[0] != '+');
}

/// Writing a decimal, reading the text back and writing the result again
/// gives the first writing.
pub proof fn decimal_text_round_trip(a: u128)
    ensures
        decimal_of(decimal_text(a)) is Some,
        decimal_text(decimal_of(decimal_text(a))->Some_0) == decimal_text(a),
{
    lemma_decimal_of_text(a);
}

} // verus!
