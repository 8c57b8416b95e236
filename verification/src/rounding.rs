//! Rounding an exact magnitude to 53 significant bits, to nearest with ties
//! to even, and fitting the result into the exponent range.

use crate::binary::{
    bit_length, bit_length_u128, lemma_bit_length_bounds, lemma_pow2_wide, pow2_u128,
};
use crate::value::{Value, EXPONENT_MAX, EXPONENT_MIN};
use vstd::arithmetic::div_mod::{
    lemma_basic_div, lemma_div_by_multiple, lemma_fundamental_div_mod, lemma_mod_bound,
    lemma_mod_multiples_basic, lemma_small_mod,
};
use vstd::arithmetic::mul::{lemma_mul_inequality, lemma_mul_strict_inequality};
use vstd::arithmetic::power2::{lemma_pow2_adds, lemma_pow2_pos, pow2};
use vstd::prelude::*;

verus! {

/// The integer nearest to `n / d`; of two equally near ones, the even one.
pub open spec fn round_half_even(n: nat, d: nat) -> nat {
    let q = n / d;
    let r = n % d;
    if 2 * r > d || (2 * r == d && q % 2 == 1) {
        q + 1
    } else {
        q
    }
}

/// The number of 53 significant bits nearest to `m > 0`, as its significand
/// and its binary exponent: it equals `significand * 2^(exponent - 53)`.
pub open spec fn nearest(m: nat) -> (nat, int) {
    let len = bit_length(m);
    if len <= 53 {
        (m * pow2((53 - len) as nat), len as int)
    } else {
        let s = round_half_even(m, pow2((len - 53) as nat));
        if s == pow2(53) {
            (pow2(52), len as int + 1)
        } else {
            (s, len as int)
        }
    }
}

/// Whether `m > 0` is a power of two.
pub open spec fn is_power_of_two(m: nat) -> bool {
    m == pow2((bit_length(m) - 1) as nat)
}

/// Whether an exact magnitude in `[2^(exponent - 1), 2^exponent)` is at most
/// half of the least positive regular number, which is `2^(EXPONENT_MIN - 1)`.
pub open spec fn vanishes(exponent: int, power_of_two: bool) -> bool {
    exponent < EXPONENT_MIN - 1 || (exponent == EXPONENT_MIN - 1 && power_of_two)
}

/// Fits a rounded result into the exponent range. Above the range it becomes
/// an infinity. Below the range it becomes a zero where the exact magnitude
/// was at most half of the least positive regular number (`vanishing`), and
/// that least number otherwise.
pub open spec fn bounded(negative: bool, significand: nat, exponent: int, vanishing: bool) -> Value {
    if exponent > EXPONENT_MAX {
        Value::Infinity { negative }
    } else if exponent >= EXPONENT_MIN {
        Value::Regular { negative, significand, exponent }
    } else if vanishing {
        Value::Zero { negative }
    } else {
        Value::Regular { negative, significand: pow2(52), exponent: EXPONENT_MIN as int }
    }
}

/// The number that the exact value `m * 2^e` of the given sign rounds to,
/// for `m > 0`.
pub open spec fn rounded(negative: bool, m: nat, e: int) -> Value {
    let (significand, exponent) = nearest(m);
    bounded(
        negative,
        significand,
        e + exponent,
        vanishes(e + bit_length(m), is_power_of_two(m)),
    )
}

/// A quotient lies between two bounds when the dividend lies between their
/// multiples of the divisor.
pub proof fn lemma_quotient_between(x: int, d: int, low: int, high: int)
    requires
        d > 0,
        low * d <= x < high * d,
    ensures
        low <= x / d < high,
{
    lemma_fundamental_div_mod(x, d);
    lemma_mod_bound(x, d);
    let q: int = x / d;
    if q < low {
        lemma_mul_inequality(q + 1, low, d);
        assert((q + 1) * d == q * d + d) by (nonlinear_arith);
        assert(q * d == d * q) by (nonlinear_arith);
    }
    if q >= high {
        lemma_mul_inequality(high, q, d);
        assert(q * d == d * q) by (nonlinear_arith);
    }
}

/// A multiple of the divisor is divided without rounding.
pub proof fn lemma_round_exact(a: nat, d: nat)
    requires
        d > 0,
    ensures
        round_half_even(a * d, d) == a,
{
    lemma_div_by_multiple(a as int, d as int);
    lemma_mod_multiples_basic(a as int, d as int);
}

/// A dividend below half of the divisor rounds to zero.
pub proof fn lemma_round_to_zero(n: nat, d: nat)
    requires
        2 * n < d,
    ensures
        round_half_even(n, d) == 0,
{
    lemma_basic_div(n as int, d as int);
    lemma_small_mod(n, d);
}

/// `round_half_even` on machine integers.
pub(crate) fn round_half_even_u128(n: u128, d: u128) -> (s: u128)
    requires
        d > 0,
        n / d < u128::MAX,
    ensures
        s == round_half_even(n as nat, d as nat),
{
    let q: u128 = n / d;
    let r: u128 = n % d;
    if r > d - r || (r == d - r && q % 2 == 1) {
        q + 1
    } else {
        q
    }
}

/// `is_power_of_two` on machine integers.
pub(crate) fn is_power_of_two_u128(m: u128) -> (b: bool)
    requires
        m > 0,
    ensures
        b == is_power_of_two(m as nat),
{
    let len: u32 = bit_length_u128(m);
    proof {
        lemma_bit_length_bounds(m as nat);
    }
    let p: u128 = pow2_u128(len - 1);
    m == p
}

/// `nearest` on machine integers.
pub(crate) fn nearest_u128(m: u128) -> (r: (u64, u32))
    requires
        m > 0,
    ensures
        nearest(m as nat) == (r.0 as nat, r.1 as int),
        pow2(52) <= r.0 < pow2(53),
        r.1 == bit_length(m as nat) || r.1 == bit_length(m as nat) + 1,
        1 <= r.1 <= 129,
{
    let len: u32 = bit_length_u128(m);
    proof {
        lemma_bit_length_bounds(m as nat);
        lemma_pow2_wide();
    }
    if len <= 53 {
        let p: u128 = pow2_u128(53 - len);
        proof {
            lemma_pow2_adds(len as nat, (53 - len) as nat);
            lemma_pow2_adds((len - 1) as nat, (53 - len) as nat);
            lemma_pow2_pos((53 - len) as nat);
            lemma_mul_strict_inequality(m as int, pow2(len as nat) as int, p as int);
            lemma_mul_inequality(pow2((len - 1) as nat) as int, m as int, p as int);
        }
        let s: u128 = m * p;
        (s as u64, len)
    } else {
        let d: u128 = pow2_u128(len - 53);
        proof {
            lemma_pow2_adds(52, (len - 53) as nat);
            lemma_pow2_adds(53, (len - 53) as nat);
            lemma_pow2_pos((len - 53) as nat);
            lemma_quotient_between(m as int, d as int, pow2(52) as int, pow2(53) as int);
        }
        let s: u128 = round_half_even_u128(m, d);
        if s == 0x20_0000_0000_0000 {
            (0x10_0000_0000_0000, len + 1)
        } else {
            (s as u64, len)
        }
    }
}

} // verus!
