//! Walking a value by a sequence of key and index steps.

use vstd::prelude::*;
use crate::error::{ContractError, Failure};
use crate::msg::{KeyType, PathKey};
use crate::text::{all_digits, digits_value, is_digit, push_str};
use crate::value::{has_key, is_first_key, key_lookup, lemma_first_key_unique, well_formed, Value};

verus! {

/// A token that reads as a non-negative decimal integer.
pub open spec fn index_token_ok(t: Seq<char>) -> bool {
    t.len() > 0 && all_digits(t)
}

/// The outcome of applying one step to a value.
pub open spec fn step_spec(v: Value, k: PathKey) -> Result<Value, Failure> {
    match k.key_type {
        KeyType::String => match v {
            Value::Object(entries) => if has_key(entries@, k.value@) {
                Ok(key_lookup(entries@, k.value@))
            } else {
                Err(Failure::KeyNotFound { key: k.value@ })
            },
            _ => Err(Failure::NotIndexable { step: k.value@ }),
        },
        KeyType::ArrayIndex => if !index_token_ok(k.value@) {
            Err(Failure::MalformedIndex { token: k.value@ })
        } else {
            match v {
                Value::Array(items) => if digits_value(k.value@) < items@.len() {
                    Ok(items@[digits_value(k.value@) as int])
                } else {
                    Err(Failure::IndexOutOfRange { index: k.value@ })
                },
                Value::Object(_) => Err(Failure::IndexOutOfRange { index: k.value@ }),
                _ => Err(Failure::NotIndexable { step: k.value@ }),
            }
        },
    }
}

/// The outcome of applying the steps of `keys` from left to right; the first
/// failing step decides the error.
pub open spec fn walk(v: Value, keys: Seq<PathKey>) -> Result<Value, Failure>
    decreases keys.len(),
{
    if keys.len() == 0 {
        Ok(v)
    } else {
        match walk(v, keys.drop_last()) {
            Ok(w) => step_spec(w, keys.last()),
            Err(e) => Err(e),
        }
    }
}

/// The tokens of `keys` joined by `->`.
pub open spec fn trace(keys: Seq<PathKey>) -> Seq<char>
    decreases keys.len(),
{
    if keys.len() == 0 {
        Seq::empty()
    } else if keys.len() == 1 {
        keys[0].value@
    } else {
        trace(keys.drop_last()) + "->"@ + keys.last().value@
    }
}

/// An executable result agrees with a specified one, errors by their view.
pub open spec fn agrees<T>(r: Result<T, ContractError>, s: Result<T, Failure>) -> bool {
    match r {
        Ok(v) => s == Ok::<T, Failure>(v),
        Err(e) => s == Err::<T, Failure>(e@),
    }
}

fn is_index_token(tok: &str) -> (r: bool)
    ensures
        r == index_token_ok(tok@),
{
    let n = tok.unicode_len();
    if n == 0 {
        return false;
    }
    let mut i: usize = 0;
    while i < n
        invariant
            n == tok@.len(),
            i <= n,
            forall|k: int| 0 <= k < i ==> is_digit(#[trigger] tok@[k]),
        decreases n - i,
    {
        let c = tok.get_char(i);
        if !('0' <= c && c <= '9') {
            return false;
        }
        i += 1;
    }
    true
}

/// The position that `tok` denotes, where it is below `len`.
fn index_below(tok: &str, len: usize) -> (r: Option<usize>)
    requires
        index_token_ok(tok@),
    ensures
        r == (if digits_value(tok@) < len {
            Some(digits_value(tok@) as usize)
        } else {
            None::<usize>
        }),
{
    let n = tok.unicode_len();
    let mut acc: usize = 0;
    let mut i: usize = 0;
    while i < n
        invariant
            n == tok@.len(),
            i <= n,
            all_digits(tok@),
            acc == (if digits_value(tok@.take(i as int)) < len {
                digits_value(tok@.take(i as int))
            } else {
                len as nat
            }),
        decreases n - i,
    {
        let c = tok.get_char(i);
        proof {
            assert(tok@.take(i + 1).drop_last() =~= tok@.take(i as int));
            assert(is_digit(tok@[i as int]));
        }
        let d = (c as u32 - '0' as u32) as u128;
        if acc < len {
            let next: u128 = acc as u128 * 10 + d;
            if next < len as u128 {
                acc = next as usize;
            } else {
                acc = len;
            }
        }
        i += 1;
    }
    proof {
        assert(tok@.take(n as int) =~= tok@);
    }
    if acc < len {
        Some(acc)
    } else {
        None
    }
}

/// Applies one step to a value, consuming it.
pub fn apply_step(val: Value, key: &PathKey) -> (r: Result<Value, ContractError>)
    requires
        well_formed(val),
    ensures
        agrees(r, step_spec(val, *key)),
        r is Ok ==> well_formed(r->Ok_0),
{
    match key.key_type {
        KeyType::String => match val {
            Value::Object(mut entries) => {
                let mut j: usize = 0;
                while j < entries.len() && !(entries[j].0 == key.value)
                    invariant
                        j <= entries@.len(),
                        forall|k: int| 0 <= k < j ==> (#[trigger] entries@[k]).0@ != key.value@,
                    decreases entries@.len() - j,
                {
                    j += 1;
                }
                if j < entries.len() {
                    proof {
                        assert(is_first_key(entries@, key.value@, j as int));
                        let c = choose|c: int| is_first_key(entries@, key.value@, c);
                        lemma_first_key_unique(entries@, key.value@, j as int, c);
                        assert(well_formed(entries@[j as int].1));
                    }
                    let entry = entries.remove(j);
                    Ok(entry.1)
                } else {
                    Err(ContractError::KeyNotFound { key: key.value.clone() })
                }
            },
            _ => Err(ContractError::NotIndexable { step: key.value.clone() }),
        },
        KeyType::ArrayIndex => {
            if !is_index_token(key.value.as_str()) {
                return Err(ContractError::MalformedIndex { token: key.value.clone() });
            }
            match val {
                Value::Array(mut items) => match index_below(key.value.as_str(), items.len()) {
                    Some(i) => {
                        proof {
                            assert(well_formed(items@[i as int]));
                        }
                        Ok(items.remove(i))
                    },
                    None => Err(ContractError::IndexOutOfRange { index: key.value.clone() }),
                },
                Value::Object(_) => Err(ContractError::IndexOutOfRange { index: key.value.clone() }),
                _ => Err(ContractError::NotIndexable { step: key.value.clone() }),
            }
        },
    }
}

/// Walks `val` by `path_keys`, from left to right. On success it returns the
/// value reached, itself well formed, and the tokens of the steps joined by
/// `->`; otherwise the error of the first step that does not apply.
pub fn get_value_by_path(val: Value, path_keys: Vec<PathKey>) -> (r: Result<
    (Value, String),
    ContractError,
>)
    requires
        well_formed(val),
    ensures
        match r {
            Ok((w, t)) => walk(val, path_keys@) == Ok::<Value, Failure>(w) && t@ == trace(
                path_keys@,
            ) && well_formed(w),
            Err(e) => walk(val, path_keys@) == Err::<Value, Failure>(e@),
        },
{
    let mut path_str = String::new();
    let mut cur = val;
    let mut i: usize = 0;
    while i < path_keys.len()
        invariant
            i <= path_keys@.len(),
            walk(val, path_keys@.take(i as int)) == Ok::<Value, Failure>(cur),
            well_formed(cur),
            path_str@ == trace(path_keys@.take(i as int)),
        decreases path_keys@.len() - i,
    {
        let key = &path_keys[i];
        proof {
            assert(path_keys@.take(i + 1).drop_last() =~= path_keys@.take(i as int));
            assert(path_keys@.take(i + 1).last() == path_keys@[i as int]);
        }
        if i > 0 {
            push_str(&mut path_str, "->");
        }
        push_str(&mut path_str, key.value.as_str());
        proof {
            reveal_strlit("->");
            if i == 0 {
                assert(path_str@ =~= trace(path_keys@.take(1)));
            } else {
                assert(path_str@ =~= trace(path_keys@.take(i + 1)));
            }
        }
        match apply_step(cur, key) {
            Ok(next) => {
                cur = next;
            },
            Err(e) => {
                proof {
                    lemma_walk_stays_failed(val, path_keys@, (i + 1) as int);
                }
                return Err(e);
            },
        }
        i += 1;
    }
    proof {
        assert(path_keys@.take(i as int) =~= path_keys@);
    }
    Ok((cur, path_str))
}

/// Once a prefix of the path fails, the whole path fails with the same error.
proof fn lemma_walk_stays_failed(v: Value, keys: Seq<PathKey>, n: int)
    requires
        0 <= n <= keys.len(),
        walk(v, keys.take(n)) is Err,
    ensures
        walk(v, keys) == walk(v, keys.take(n)),
    decreases keys.len() - n,
{
    if n < keys.len() {
        assert(keys.take(n + 1).drop_last() =~= keys.take(n));
        lemma_walk_stays_failed(v, keys, n + 1);
    } else {
        assert(keys.take(n) =~= keys);
    }
}

} // verus!
