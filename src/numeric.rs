//! Reading and writing fixed-point decimals as cosmwasm_std's `Decimal`
//! does; its whole and fractional parts are read as `u128` values.

use vstd::prelude::*;
use crate::text::{
    all_digits, decimal_digits, digit_value, digits_value, is_digit, lemma_decimal_digits,
};

verus! {

/// The number of fractional digits of a decimal.
pub const DECIMAL_PLACES: u64 = 18;

/// `10` to the power `n`.
pub open spec fn pow10(n: nat) -> nat
    decreases n,
{
    if n == 0 {
        1
    } else {
        10 * pow10((n - 1) as nat)
    }
}

/// One whole unit of a decimal, in atomics.
pub open spec fn decimal_unit() -> nat {
    pow10(DECIMAL_PLACES as nat)
}

/// The digits of an unsigned literal, after an optional leading `+`.
pub open spec fn unsigned_body(s: Seq<char>) -> Seq<char> {
    if s.len() > 0 && s[0] == '+' {
        s.drop_first()
    } else {
        s
    }
}

/// The `u128` that `s` denotes, as std reads one: an optional `+`, then one
/// or more decimal digits, with a value that fits in 128 bits.
pub open spec fn uint_of(s: Seq<char>) -> Option<u128> {
    let b = unsigned_body(s);
    if b.len() > 0 && all_digits(b) && digits_value(b) <= u128::MAX {
        Some(digits_value(b) as u128)
    } else {
        None
    }
}

/// The position of the first `.` in `s`, or its length where there is none.
pub open spec fn first_dot(s: Seq<char>) -> int
    decreases s.len(),
{
    if s.len() == 0 {
        0
    } else if s[0] == '.' {
        0
    } else {
        1 + first_dot(s.drop_first())
    }
}

/// The atomics (units of `10^-18`) of the decimal that `s` denotes: a whole
/// part read as a `u128`, then optionally a `.` and a fractional part of at
/// most 18 characters, also read as a `u128`, and no second `.`; the result
/// must fit in 128 bits.
pub open spec fn decimal_of(s: Seq<char>) -> Option<u128> {
    let p = first_dot(s);
    match uint_of(s.take(p)) {
        None => None,
        Some(w) => if p >= s.len() {
            if w * decimal_unit() <= u128::MAX {
                Some((w * decimal_unit()) as u128)
            } else {
                None
            }
        } else {
            let rest = s.skip(p + 1);
            let q = first_dot(rest);
            let frac = rest.take(q);
            match uint_of(frac) {
                None => None,
                Some(f) => if frac.len() > DECIMAL_PLACES || q < rest.len() {
                    None
                } else {
                    let a = w * decimal_unit() + f * pow10((DECIMAL_PLACES - frac.len()) as nat);
                    if a <= u128::MAX {
                        Some(a as u128)
                    } else {
                        None
                    }
                },
            }
        },
    }
}

/// `n` zeros.
pub open spec fn zeros(n: int) -> Seq<char> {
    Seq::new(n as nat, |i: int| '0')
}

/// `s` without its trailing zeros.
pub open spec fn trim_zeros(s: Seq<char>) -> Seq<char>
    decreases s.len(),
{
    if s.len() > 0 && s.last() == '0' {
        trim_zeros(s.drop_last())
    } else {
        s
    }
}

/// How a decimal of `a` atomics is written: its whole part, and where the
/// fraction is not zero, a `.` and the 18 fractional digits without their
/// trailing zeros.
pub open spec fn decimal_text(a: u128) -> Seq<char> {
    let whole = a as nat / decimal_unit();
    let frac = a as nat % decimal_unit();
    if frac == 0 {
        decimal_digits(whole)
    } else {
        let digits = decimal_digits(frac);
        decimal_digits(whole) + seq!['.'] + trim_zeros(
            zeros(DECIMAL_PLACES - digits.len()) + digits,
        )
    }
}

/// Relies on `cosmwasm_std::Decimal::from_str`: the atomics of the decimal it
/// reads.
#[verifier::external_body]
pub(crate) fn parse_decimal(s: &str) -> (r: Option<u128>)
    ensures
        r == decimal_of(s@),
{
    <cosmwasm_std::Decimal as std::str::FromStr>::from_str(s).ok().map(|d| d.atomics().u128())
}

/// Relies on the `Display` of `cosmwasm_std::Decimal`, for the decimal of `a`
/// atomics.
#[verifier::external_body]
pub(crate) fn decimal_to_string(a: u128) -> (r: String)
    ensures
        r@ == decimal_text(a),
{
    cosmwasm_std::Decimal::raw(a).to_string()
}

/// A unit of a decimal is `10^18`.
pub proof fn lemma_decimal_unit()
    ensures
        decimal_unit() == 1_000_000_000_000_000_000,
{
    reveal_with_fuel(pow10, 19);
}

pub proof fn lemma_pow10_positive(n: nat)
    ensures
        pow10(n) > 0,
    decreases n,
{
    if n > 0 {
        lemma_pow10_positive((n - 1) as nat);
    }
}

/// A number below `10^k`, for `k` at least one, has at most `k` digits.
pub proof fn lemma_digits_len_bound(n: nat, k: nat)
    requires
        k >= 1,
        n < pow10(k),
    ensures
        decimal_digits(n).len() <= k,
    decreases n,
{
    if n >= 10 {
        if k == 1 {
            assert(pow10(1) == 10 * pow10(0));
        }
        assert(pow10(k) == 10 * pow10((k - 1) as nat));
        lemma_digits_len_bound(n / 10, (k - 1) as nat);
    }
}

/// Zeros in front of a digit string change neither its value nor its digits.
pub proof fn lemma_leading_zeros(m: int, d: Seq<char>)
    requires
        m >= 0,
        all_digits(d),
    ensures
        digits_value(zeros(m) + d) == digits_value(d),
        all_digits(zeros(m) + d),
    decreases m + d.len(),
{
    let z = zeros(m) + d;
    assert forall|i: int| 0 <= i < z.len() implies is_digit(#[trigger] z[i]) by {
        if i >= m {
            assert(z[i] == d[i - m]);
        }
    }
    if d.len() == 0 {
        assert(z =~= zeros(m));
        if m > 0 {
            assert(zeros(m).drop_last() =~= zeros(m - 1) + d);
            lemma_leading_zeros(m - 1, d);
        }
    } else {
        assert(z.drop_last() =~= zeros(m) + d.drop_last());
        lemma_leading_zeros(m, d.drop_last());
    }
}

/// Dropping trailing zeros divides the value of a digit string by a power of
/// ten, and leaves a prefix of it.
pub proof fn lemma_trim_zeros(s: Seq<char>)
    requires
        all_digits(s),
    ensures
        trim_zeros(s).len() <= s.len(),
        trim_zeros(s) =~= s.take(trim_zeros(s).len() as int),
        digits_value(s) == digits_value(trim_zeros(s)) * pow10(
            (s.len() - trim_zeros(s).len()) as nat,
        ),
        trim_zeros(s).len() > 0 ==> trim_zeros(s).last() != '0',
    decreases s.len(),
{
    if s.len() > 0 && s.last() == '0' {
        let d = s.drop_last();
        lemma_trim_zeros(d);
        let t = trim_zeros(d);
        let e = (d.len() - t.len()) as nat;
        assert(pow10(e + 1) == 10 * pow10(e));
        assert(digit_value('0') == 0);
        assert(digits_value(s) == digits_value(d) * 10);
        assert(digits_value(s) == digits_value(t) * pow10(e + 1)) by (nonlinear_arith)
            requires
                pow10(e + 1) == 10 * pow10(e),
                digits_value(s) == digits_value(d) * 10,
                digits_value(d) == digits_value(t) * pow10(e),
        ;
        assert(trim_zeros(s) == t);
        assert((s.len() - t.len()) as nat == e + 1);
    } else {
        assert(s.take(s.len() as int) =~= s);
        assert(trim_zeros(s) == s);
        assert(pow10(0) == 1);
        assert(digits_value(s) == digits_value(s) * pow10(0));
    }
}

/// `first_dot` skips a leading run of digits.
pub proof fn lemma_first_dot_after_digits(d: Seq<char>, r: Seq<char>)
    requires
        all_digits(d),
    ensures
        first_dot(d + r) == d.len() + first_dot(r),
    decreases d.len(),
{
    if d.len() > 0 {
        assert((d + r).drop_first() =~= d.drop_first() + r);
        assert((d + r)[0] == d[0]);
        lemma_first_dot_after_digits(d.drop_first(), r);
    } else {
        assert(d + r =~= r);
    }
}

/// A non-empty digit string that does not start with `+` reads as its value.
pub proof fn lemma_uint_of_digit_string(d: Seq<char>)
    requires
        d.len() > 0,
        all_digits(d),
        digits_value(d) <= u128::MAX,
    ensures
        uint_of(d) == Some(digits_value(d) as u128),
{
    assert(is_digit(d[0]));
}

/// Any digit string is free of dots.
pub proof fn lemma_first_dot_of_digits(d: Seq<char>)
    requires
        all_digits(d),
    ensures
        first_dot(d) == d.len(),
{
    lemma_first_dot_after_digits(d, Seq::empty());
    assert(d + Seq::<char>::empty() =~= d);
}

/// The writing of a decimal reads back as the same decimal.
pub proof fn lemma_decimal_of_text(a: u128)
    ensures
        decimal_of(decimal_text(a)) == Some(a),
{
    lemma_decimal_unit();
    let unit = decimal_unit();
    let whole = a as nat / unit;
    let frac = a as nat % unit;
    assert(a as nat == whole * unit + frac) by (nonlinear_arith)
        requires
            unit > 0,
            whole == a as nat / unit,
            frac == a as nat % unit,
    ;
    assert(whole <= a) by (nonlinear_arith)
        requires
            unit >= 1,
            whole == a as nat / unit,
    ;
    let w = decimal_digits(whole);
    lemma_decimal_digits(whole);
    lemma_uint_of_digit_string(w);
    let text = decimal_text(a);
    if frac == 0 {
        lemma_first_dot_of_digits(w);
        assert(text.take(first_dot(text)) =~= w);
    } else {
        let d = decimal_digits(frac);
        lemma_decimal_digits(frac);
        lemma_digits_len_bound(frac, DECIMAL_PLACES as nat);
        let m = DECIMAL_PLACES - d.len();
        let p = zeros(m) + d;
        lemma_leading_zeros(m, d);
        let t = trim_zeros(p);
        lemma_trim_zeros(p);
        let e = (p.len() - t.len()) as nat;
        lemma_pow10_positive(e);
        if t.len() == 0 {
            assert(digits_value(t) == 0);
            assert(digits_value(p) == 0 * pow10(e));
        }
        assert(all_digits(t)) by {
            assert forall|i: int| 0 <= i < t.len() implies is_digit(#[trigger] t[i]) by {
                assert(t[i] == p[i]);
            }
        }
        assert(digits_value(t) <= digits_value(p)) by (nonlinear_arith)
            requires
                digits_value(p) == digits_value(t) * pow10(e),
                pow10(e) > 0,
        ;
        lemma_uint_of_digit_string(t);
        assert(text == w + seq!['.'] + t);
        assert(text =~= w + (seq!['.'] + t));
        lemma_first_dot_after_digits(w, seq!['.'] + t);
        assert(first_dot(seq!['.'] + t) == 0);
        let q = first_dot(text);
        assert(q == w.len());
        assert(text.take(q) =~= w);
        let rest = text.skip(q + 1);
        assert(rest =~= t);
        lemma_first_dot_of_digits(t);
        assert(rest.take(first_dot(rest)) =~= t);
        assert(p.len() == DECIMAL_PLACES);
        assert((DECIMAL_PLACES - t.len()) as nat == e);
    }
}

} // verus!
