//! The canonical string form of a value.

use vstd::prelude::*;
use crate::error::{ContractError, Failure};
use crate::text::{decimal_digits, push_decimal, push_str};
use core::cmp::Ordering;
use crate::compare::lex_compare;
use crate::value::{key_rises, well_formed, Value};

verus! {

/// The decimal writing of a signed integer, with `-` before a negative one.
pub open spec fn number_text(n: i128) -> Seq<char> {
    if n < 0 {
        seq!['-'] + decimal_digits((-n) as nat)
    } else {
        decimal_digits(n as nat)
    }
}

pub open spec fn child_count(v: Value) -> nat {
    match v {
        Value::Array(items) => items@.len(),
        Value::Object(entries) => entries@.len(),
        _ => 0,
    }
}

/// The canonical string of a value: a string as it is, a number in decimal,
/// an array as `[e0,e1,...]`, a map as `{k0:v0,k1:v1,...}` in entry order.
/// A boolean or a null has none.
pub open spec fn render(v: Value) -> Option<Seq<char>>
    decreases v, child_count(v) + 1,
{
    match v {
        Value::Null => None,
        Value::Bool(_) => None,
        Value::Number(n) => Some(number_text(n)),
        Value::String(s) => Some(s@),
        Value::Array(items) => match render_items(v, items@.len() as int) {
            Some(body) => Some("["@ + body + "]"@),
            None => None,
        },
        Value::Object(entries) => match render_entries(v, entries@.len() as int) {
            Some(body) => Some("{"@ + body + "}"@),
            None => None,
        },
    }
}

/// The first `n` elements of the array `v`, rendered and joined by commas.
pub open spec fn render_items(v: Value, n: int) -> Option<Seq<char>>
    decreases v, n,
{
    match v {
        Value::Array(items) => if n <= 0 || n > items@.len() {
            Some(Seq::empty())
        } else {
            match render_items(v, n - 1) {
                Some(pre) => match render(items@[n - 1]) {
                    Some(t) => Some(
                        if n == 1 {
                            t
                        } else {
                            pre + ","@ + t
                        },
                    ),
                    None => None,
                },
                None => None,
            }
        },
        _ => Some(Seq::empty()),
    }
}

/// The first `n` entries of the map `v`, each as `key:value`, joined by commas.
pub open spec fn render_entries(v: Value, n: int) -> Option<Seq<char>>
    decreases v, n,
{
    match v {
        Value::Object(entries) => if n <= 0 || n > entries@.len() {
            Some(Seq::empty())
        } else {
            match render_entries(v, n - 1) {
                Some(pre) => match render(entries@[n - 1].1) {
                    Some(t) => Some(
                        if n == 1 {
                            entries@[n - 1].0@ + ":"@ + t
                        } else {
                            pre + ","@ + entries@[n - 1].0@ + ":"@ + t
                        },
                    ),
                    None => None,
                },
                None => None,
            }
        },
        _ => Some(Seq::empty()),
    }
}

/// Whether `v` is well formed.
pub fn is_well_formed(v: &Value) -> (r: bool)
    ensures
        r == well_formed(*v),
    decreases v,
{
    match v {
        Value::Array(items) => {
            let mut i: usize = 0;
            while i < items.len()
                invariant
                    i <= items@.len(),
                    *v == Value::Array(*items),
                    forall|k: int| 0 <= k < i ==> well_formed(#[trigger] items@[k]),
                decreases items@.len() - i,
            {
                proof {
                    assert(decreases_to!(*v => v->Array_0));
                    assert(decreases_to!(*items => items[i as int]));
                }
                if !is_well_formed(&items[i]) {
                    proof {
                        assert(!well_formed(items@[i as int]));
                    }
                    return false;
                }
                i += 1;
            }
            true
        },
        Value::Object(entries) => {
            let mut i: usize = 0;
            while i < entries.len()
                invariant
                    i <= entries@.len(),
                    *v == Value::Object(*entries),
                    forall|k: int| 0 <= k < i ==> well_formed(#[trigger] entries@[k].1),
                    forall|k: int| 0 <= k < i - 1 ==> #[trigger] key_rises(entries@, k),
                decreases entries@.len() - i,
            {
                if i > 0 {
                    let o = lex_compare(entries[i - 1].0.as_str(), entries[i].0.as_str());
                    if !matches!(o, Ordering::Less) {
                        proof {
                            assert(!key_rises(entries@, i - 1));
                        }
                        return false;
                    }
                }
                proof {
                    assert(decreases_to!(*v => v->Object_0));
                    assert(decreases_to!(*entries => entries[i as int]));
                    assert(decreases_to!(entries[i as int] => entries[i as int].1));
                }
                if !is_well_formed(&entries[i].1) {
                    proof {
                        assert(!well_formed(entries@[i as int].1));
                    }
                    return false;
                }
                i += 1;
            }
            true
        },
        _ => true,
    }
}

/// Once a prefix of an array fails to render, every longer prefix fails.
proof fn lemma_items_fail(v: Value, n: int, m: int)
    requires
        n <= m <= child_count(v),
        v is Array,
        render_items(v, n) is None,
    ensures
        render_items(v, m) is None,
    decreases m - n,
{
    if n < m {
        lemma_items_fail(v, n, m - 1);
    }
}

/// Once a prefix of a map fails to render, every longer prefix fails.
proof fn lemma_entries_fail(v: Value, n: int, m: int)
    requires
        n <= m <= child_count(v),
        v is Object,
        render_entries(v, n) is None,
    ensures
        render_entries(v, m) is None,
    decreases m - n,
{
    if n < m {
        lemma_entries_fail(v, n, m - 1);
    }
}

fn push_number(out: &mut String, n: i128)
    ensures
        final(out)@ == old(out)@ + number_text(n),
{
    if n < 0 {
        push_str(out, "-");
        let magnitude: u128 = (-(n + 1)) as u128 + 1;
        push_decimal(out, magnitude);
        proof {
            reveal_strlit("-");
            assert(final(out)@ =~= old(out)@ + number_text(n));
        }
    } else {
        push_decimal(out, n as u128);
    }
}

/// Appends the canonical string of `v` to `out`; false where it has none.
fn write_value(v: &Value, out: &mut String) -> (ok: bool)
    ensures
        ok == render(*v) is Some,
        ok ==> final(out)@ == old(out)@ + render(*v)->Some_0,
    decreases v,
{
    proof {
        reveal_strlit("[");
        reveal_strlit("]");
        reveal_strlit("{");
        reveal_strlit("}");
        reveal_strlit(",");
        reveal_strlit(":");
    }
    match v {
        Value::Null => false,
        Value::Bool(_) => false,
        Value::Number(n) => {
            push_number(out, *n);
            true
        },
        Value::String(s) => {
            push_str(out, s.as_str());
            true
        },
        Value::Array(items) => {
            let ghost start = out@;
            push_str(out, "[");
            let mut i: usize = 0;
            while i < items.len()
                invariant
                    i <= items@.len(),
                    render_items(*v, i as int) is Some,
                    out@ == start + "["@ + render_items(*v, i as int)->Some_0,
                    *v == Value::Array(*items),
                decreases items@.len() - i,
            {
                if i > 0 {
                    push_str(out, ",");
                }
                if !write_value(&items[i], out) {
                    proof {
                        lemma_items_fail(*v, i + 1, items@.len() as int);
                    }
                    return false;
                }
                proof {
                    assert(out@ =~= start + "["@ + render_items(*v, i + 1)->Some_0);
                }
                i += 1;
            }
            push_str(out, "]");
            proof {
                assert(out@ =~= start + render(*v)->Some_0);
            }
            true
        },
        Value::Object(entries) => {
            let ghost start = out@;
            push_str(out, "{");
            let mut i: usize = 0;
            while i < entries.len()
                invariant
                    i <= entries@.len(),
                    render_entries(*v, i as int) is Some,
                    out@ == start + "{"@ + render_entries(*v, i as int)->Some_0,
                    *v == Value::Object(*entries),
                decreases entries@.len() - i,
            {
                if i > 0 {
                    push_str(out, ",");
                }
                push_str(out, entries[i].0.as_str());
                push_str(out, ":");
                if !write_value(&entries[i].1, out) {
                    proof {
                        lemma_entries_fail(*v, i + 1, entries@.len() as int);
                    }
                    return false;
                }
                proof {
                    assert(out@ =~= start + "{"@ + render_entries(*v, i + 1)->Some_0);
                }
                i += 1;
            }
            push_str(out, "}");
            proof {
                assert(out@ =~= start + render(*v)->Some_0);
            }
            true
        },
    }
}

/// The canonical string of `val`; `UnsupportedType` where it holds a boolean
/// or a null anywhere.
pub fn convert_value_to_string(val: Value) -> (r: Result<String, ContractError>)
    requires
        well_formed(val),
    ensures
        match r {
            Ok(s) => render(val) == Some(s@),
            Err(e) => render(val) is None && e@ == Failure::UnsupportedType,
        },
{
    let mut out = String::new();
    if write_value(&val, &mut out) {
        proof {
            assert(out@ =~= render(val)->Some_0);
        }
        Ok(out)
    } else {
        Err(ContractError::UnsupportedType {})
    }
}

} // verus!
