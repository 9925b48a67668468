//! Unsigned integers of any size, read from and written as decimal digits.

use vstd::prelude::*;
use core::cmp::Ordering;
use crate::numeric::{pow10, unsigned_body, zeros, lemma_leading_zeros, lemma_pow10_positive};
use crate::text::{
    all_digits, decimal_digits, digit_value, digits_value, is_digit, lemma_decimal_digits,
    lemma_digit_round_trip, lemma_digits_value_push,
};

verus! {

/// The natural number that `s` denotes: an optional `+`, then one or more
/// decimal digits, of any length.
pub open spec fn nat_of(s: Seq<char>) -> Option<nat> {
    let b = unsigned_body(s);
    if b.len() > 0 && all_digits(b) {
        Some(digits_value(b))
    } else {
        None
    }
}

/// The order of two integers.
pub open spec fn int_order(a: int, b: int) -> Ordering {
    if a < b {
        Ordering::Less
    } else if a == b {
        Ordering::Equal
    } else {
        Ordering::Greater
    }
}

/// A digit string without a superfluous leading zero.
pub open spec fn canonical(t: Seq<char>) -> bool {
    t.len() > 0 && all_digits(t) && (t.len() == 1 || t[0] != '0')
}

/// The value of a digit string is below `10` to the power of its length.
pub proof fn lemma_digits_value_bound(s: Seq<char>)
    requires
        all_digits(s),
    ensures
        digits_value(s) < pow10(s.len()),
    decreases s.len(),
{
    if s.len() > 0 {
        let d = s.drop_last();
        lemma_digits_value_bound(d);
        lemma_digit_round_trip(s.last());
        assert(pow10(s.len()) == 10 * pow10(d.len()));
        assert(digits_value(s) < pow10(s.len())) by (nonlinear_arith)
            requires
                digits_value(s) == digits_value(d) * 10 + digit_value(s.last()),
                digits_value(d) < pow10(d.len()),
                digit_value(s.last()) < 10,
                pow10(s.len()) == 10 * pow10(d.len()),
        ;
    }
}

/// The value of `x` followed by `y`.
pub proof fn lemma_digits_value_concat(x: Seq<char>, y: Seq<char>)
    ensures
        digits_value(x + y) == digits_value(x) * pow10(y.len()) + digits_value(y),
    decreases y.len(),
{
    if y.len() == 0 {
        assert(x + y =~= x);
        assert(pow10(0) == 1);
        assert(digits_value(y) == 0);
    } else {
        let d = y.drop_last();
        assert((x + y).drop_last() =~= x + d);
        assert((x + y).last() == y.last());
        lemma_digits_value_concat(x, d);
        assert(pow10(y.len()) == 10 * pow10(d.len()));
        assert(digits_value(x + y) == digits_value(x) * pow10(y.len()) + digits_value(y))
            by (nonlinear_arith)
            requires
                digits_value(x + y) == digits_value(x + d) * 10 + digit_value(y.last()),
                digits_value(x + d) == digits_value(x) * pow10(d.len()) + digits_value(d),
                digits_value(y) == digits_value(d) * 10 + digit_value(y.last()),
                pow10(y.len()) == 10 * pow10(d.len()),
        ;
    }
}

/// A digit string that starts with a non-zero digit is at least `10` to the
/// power of its length less one.
pub proof fn lemma_digits_value_lower(t: Seq<char>)
    requires
        t.len() > 0,
        all_digits(t),
        t[0] != '0',
    ensures
        digits_value(t) >= pow10((t.len() - 1) as nat),
{
    let head = t.take(1);
    let rest = t.skip(1);
    assert(t =~= head + rest);
    lemma_digits_value_concat(head, rest);
    assert(head.drop_last() =~= Seq::<char>::empty());
    assert(digits_value(Seq::<char>::empty()) == 0);
    assert(digits_value(head) == digit_value(t[0]));
    assert(is_digit(t[0]));
    assert(digit_value(t[0]) >= 1);
    lemma_pow10_positive(rest.len());
    assert(digits_value(t) >= pow10(rest.len())) by (nonlinear_arith)
        requires
            digits_value(t) == digits_value(head) * pow10(rest.len()) + digits_value(rest),
            digits_value(head) >= 1,
    ;
}

/// A canonical digit string is the decimal writing of its value.
pub proof fn lemma_canonical_is_writing(t: Seq<char>)
    requires
        canonical(t),
    ensures
        decimal_digits(digits_value(t)) == t,
    decreases t.len(),
{
    lemma_digit_round_trip(t.last());
    if t.len() == 1 {
        assert(t.drop_last() =~= Seq::<char>::empty());
        assert(digits_value(Seq::<char>::empty()) == 0);
        assert(t =~= seq![t.last()]);
    } else {
        let d = t.drop_last();
        assert(d[0] == t[0]);
        assert(all_digits(d)) by {
            assert forall|i: int| 0 <= i < d.len() implies is_digit(#[trigger] d[i]) by {
                assert(d[i] == t[i]);
            }
        }
        lemma_canonical_is_writing(d);
        lemma_digits_value_lower(d);
        lemma_pow10_positive((d.len() - 1) as nat);
        let n = digits_value(t);
        assert(n == digits_value(d) * 10 + digit_value(t.last()));
        assert(n >= 10);
        assert(n / 10 == digits_value(d));
        assert(n % 10 == digit_value(t.last()));
        assert(t =~= d.push(t.last()));
    }
}

/// The decimal writing of a number is canonical.
pub proof fn lemma_writing_is_canonical(n: nat)
    ensures
        canonical(decimal_digits(n)),
        digits_value(decimal_digits(n)) == n,
        n > 0 ==> decimal_digits(n)[0] != '0',
    decreases n,
{
    lemma_decimal_digits(n);
    if n >= 10 {
        lemma_writing_is_canonical(n / 10);
        assert(decimal_digits(n)[0] == decimal_digits(n / 10)[0]);
    }
}

/// Reads `s` as a natural number and returns its decimal writing, or `None`
/// where `s` is not an optional `+` followed by one or more digits.
pub fn read_natural(s: &str) -> (r: Option<String>)
    ensures
        match r {
            Some(t) => nat_of(s@) is Some && t@ == decimal_digits(nat_of(s@)->Some_0),
            None => nat_of(s@) is None,
        },
{
    let n = s.unicode_len();
    let mut start: usize = 0;
    if n > 0 && s.get_char(0) == '+' {
        start = 1;
    }
    let ghost b = unsigned_body(s@);
    proof {
        assert(b =~= s@.subrange(start as int, n as int));
    }
    if start == n {
        return None;
    }
    let mut i: usize = start;
    while i < n
        invariant
            n == s@.len(),
            start <= i <= n,
            b == s@.subrange(start as int, n as int),
            b == unsigned_body(s@),
            forall|k: int| start <= k < i ==> is_digit(#[trigger] s@[k]),
        decreases n - i,
    {
        let c = s.get_char(i);
        if !('0' <= c && c <= '9') {
            proof {
                assert(b[i - start] == c);
                assert(!is_digit(b[i - start]));
                assert(!all_digits(b));

            }
            return None;
        }
        i += 1;
    }
    assert(all_digits(b)) by {
        assert forall|k: int| 0 <= k < b.len() implies is_digit(#[trigger] b[k]) by {
            assert(b[k] == s@[k + start]);
        }
    }
    let mut k: usize = start;
    while k < n && s.get_char(k) == '0'
        invariant
            n == s@.len(),
            start <= k <= n,
            forall|j: int| start <= j < k ==> s@[j] == '0',
        decreases n - k,
    {
        k += 1;
    }
    let ghost m = (k - start) as int;
    let ghost t = b.skip(m);
    proof {
        assert(b =~= zeros(m) + t);
        lemma_leading_zeros(m, t);
    }
    if k == n {
        proof {
            assert(t =~= Seq::<char>::empty());
            assert(digits_value(Seq::<char>::empty()) == 0);
            reveal_strlit("0");
        }
        Some(String::from_str("0"))
    } else {
        let rest = s.substring_char(k, n);
        proof {
            assert(rest@ =~= t);
            assert(t[0] == s@[k as int]);
            lemma_canonical_is_writing(t);
        }
        Some(String::from_str(rest))
    }
}

/// The order of the numbers that two canonical digit strings denote.
pub fn compare_canonical(a: &str, b: &str) -> (r: Ordering)
    requires
        canonical(a@),
        canonical(b@),
    ensures
        r == int_order(digits_value(a@) as int, digits_value(b@) as int),
{
    let n = a.unicode_len();
    let m = b.unicode_len();
    if n != m {
        proof {
            lemma_digits_value_bound(a@);
            lemma_digits_value_bound(b@);
            if n < m {
                lemma_digits_value_lower(b@);
                lemma_pow10_mono(n as nat, (m - 1) as nat);
            } else {
                lemma_digits_value_lower(a@);
                lemma_pow10_mono(m as nat, (n - 1) as nat);
            }
        }
        return if n < m {
            Ordering::Less
        } else {
            Ordering::Greater
        };
    }
    let mut i: usize = 0;
    while i < n && a.get_char(i) == b.get_char(i)
        invariant
            n == a@.len(),
            n == b@.len(),
            i <= n,
            a@.take(i as int) == b@.take(i as int),
        decreases n - i,
    {
        proof {
            assert(a@.take(i + 1) =~= a@.take(i as int).push(a@[i as int]));
            assert(b@.take(i + 1) =~= b@.take(i as int).push(b@[i as int]));
        }
        i += 1;
    }
    if i == n {
        proof {
            assert(a@ =~= a@.take(n as int));
            assert(b@ =~= b@.take(n as int));
        }
        return Ordering::Equal;
    }
    let x = a.get_char(i);
    let y = b.get_char(i);
    if (x as u32) < (y as u32) {
        proof {
            lemma_split_at_difference(a@, b@, i as int);
        }
        Ordering::Less
    } else {
        proof {
            assert(x != y);
            assert((y as u32) < (x as u32));
            lemma_split_at_difference(b@, a@, i as int);
        }
        Ordering::Greater
    }
}

pub proof fn lemma_pow10_mono(a: nat, b: nat)
    requires
        a <= b,
    ensures
        pow10(a) <= pow10(b),
    decreases b,
{
    if a < b {
        lemma_pow10_mono(a, (b - 1) as nat);
        lemma_pow10_positive((b - 1) as nat);
    }
}

/// Of two digit strings of one length that agree before position `i`, the
/// one with the smaller digit at `i` has the smaller value.
proof fn lemma_split_at_difference(a: Seq<char>, b: Seq<char>, i: int)
    requires
        all_digits(a),
        all_digits(b),
        a.len() == b.len(),
        0 <= i < a.len(),
        a.take(i) == b.take(i),
        (a[i] as u32) < (b[i] as u32),
    ensures
        digits_value(a) < digits_value(b),
{
    let p = (a.len() - i - 1) as nat;
    let ha = a.take(i + 1);
    let hb = b.take(i + 1);
    assert(a =~= ha + a.skip(i + 1));
    assert(b =~= hb + b.skip(i + 1));
    lemma_digits_value_concat(ha, a.skip(i + 1));
    lemma_digits_value_concat(hb, b.skip(i + 1));
    assert(all_digits(a.skip(i + 1))) by {
        assert forall|k: int| 0 <= k < a.skip(i + 1).len() implies is_digit(
            #[trigger] a.skip(i + 1)[k],
        ) by {
            assert(a.skip(i + 1)[k] == a[k + i + 1]);
        }
    }
    lemma_digits_value_bound(a.skip(i + 1));
    assert(ha =~= a.take(i).push(a[i]));
    assert(hb =~= b.take(i).push(b[i]));
    lemma_digits_value_push(a.take(i), a[i]);
    lemma_digits_value_push(b.take(i), b[i]);
    assert(is_digit(a[i]) && is_digit(b[i]));
    let base = digits_value(a.take(i));
    assert(digits_value(ha) + 1 <= digits_value(hb));
    lemma_pow10_positive(p);
    assert(digits_value(a) < digits_value(b)) by (nonlinear_arith)
        requires
            digits_value(a) == digits_value(ha) * pow10(p) + digits_value(a.skip(i + 1)),
            digits_value(b) == digits_value(hb) * pow10(p) + digits_value(b.skip(i + 1)),
            digits_value(a.skip(i + 1)) < pow10(p),
            digits_value(ha) + 1 <= digits_value(hb),
            pow10(p) > 0,
    ;
}

} // verus!
