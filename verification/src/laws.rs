//! Laws that hold of every number.

use crate::binary::{bit_length, lemma_bit_length_unique, lemma_pow2_wide};
use crate::convert::lemma_int_round_trip;
use crate::format::decimal;
use crate::rounding::{lemma_round_exact, round_half_even, rounded};
use crate::value::{magnitude_of, Comparison, Value, EXPONENT_MAX, EXPONENT_MIN};
use vstd::arithmetic::div_mod::{lemma_fundamental_div_mod, lemma_mod_bound};
use vstd::arithmetic::mul::{
    lemma_mul_inequality, lemma_mul_is_commutative, lemma_mul_strict_inequality,
};
use vstd::arithmetic::power2::{lemma2_to64, lemma_pow2_adds, pow2};
use vstd::prelude::*;

verus! {

/// Every number has exactly one of the four kinds, and it counts as a number
/// exactly when it is a zero or regular.
pub proof fn lemma_one_class(v: Value)
    ensures
        v is Nan || v is Infinity || v is Zero || v is Regular,
        !(v is Nan && v is Infinity),
        !(v is Nan && v is Zero),
        !(v is Nan && v is Regular),
        !(v is Infinity && v is Zero),
        !(v is Infinity && v is Regular),
        !(v is Zero && v is Regular),
        v.is_number() <==> !(v is Nan || v is Infinity),
        v.is_number() <==> (v is Zero || v is Regular),
{
}

/// NaN is unordered with every number, on either side: it is neither equal
/// to it nor strictly below or above it.
pub proof fn lemma_nan_unordered(h: Value)
    ensures
        Value::Nan.compare(h) == Comparison::Unordered,
        h.compare(Value::Nan) == Comparison::Unordered,
        Value::Nan.compare(Value::Nan) != Comparison::Equal,
        !Value::Nan.compare(Value::Nan).is_strict(),
{
}

/// Two numbers are unordered only when one of them is NaN.
pub proof fn lemma_unordered_only_with_nan(a: Value, b: Value)
    ensures
        a.compare(b) == Comparison::Unordered <==> (a is Nan || b is Nan),
{
}

/// Comparing in the other order gives the opposite outcome.
pub proof fn lemma_compare_reversed(a: Value, b: Value)
    ensures
        b.compare(a) == a.compare(b).reversed(),
{
}

/// Every number but NaN equals itself.
pub proof fn lemma_compare_self(a: Value)
    ensures
        a.compare(a) == if a is Nan {
            Comparison::Unordered
        } else {
            Comparison::Equal
        },
{
}

/// The sum does not depend on the order of the operands.
pub proof fn lemma_sum_commutes(a: Value, b: Value)
    ensures
        a.sum(b) == b.sum(a),
{
}

/// The product does not depend on the order of the operands.
pub proof fn lemma_product_commutes(a: Value, b: Value)
    ensures
        a.product(b) == b.product(a),
{
    if a is Regular && b is Regular {
        lemma_mul_is_commutative(a->significand as int, b->significand as int);
    }
}

/// `round_half_even(n, d)` is an integer nearest to `n / d`: it differs
/// from the quotient by at most one half, and where it differs by exactly
/// one half it is even.
pub proof fn lemma_round_half_even_nearest(n: nat, d: nat)
    requires
        d > 0,
    ensures
        2 * (n - round_half_even(n, d) * d) <= d,
        2 * (round_half_even(n, d) * d - n) <= d,
        (2 * (n - round_half_even(n, d) * d) == d || 2 * (round_half_even(n, d) * d - n) == d)
            ==> round_half_even(n, d) % 2 == 0,
{
    let q: int = (n / d) as int;
    lemma_fundamental_div_mod(n as int, d as int);
    lemma_mod_bound(n as int, d as int);
    assert((q + 1) * d == q * d + d) by (nonlinear_arith);
}

/// No other integer is as near to `n / d` as `round_half_even(n, d)` is,
/// but for the other neighbour of a quotient that lies half way, which is
/// odd.
pub proof fn lemma_round_half_even_unique(n: nat, d: nat, k: nat)
    requires
        d > 0,
        2 * (n - k * d) <= d,
        2 * (k * d - n) <= d,
        (2 * (n - k * d) == d || 2 * (k * d - n) == d) ==> k % 2 == 0,
    ensures
        k == round_half_even(n, d),
{
    let q: int = (n / d) as int;
    lemma_fundamental_div_mod(n as int, d as int);
    lemma_mod_bound(n as int, d as int);
    assert((q + 1) * d == q * d + d) by (nonlinear_arith);
    if k < q {
        assert(k * d <= (q - 1) * d) by (nonlinear_arith)
            requires
                k <= q - 1,
                d > 0,
        ;
        assert((q - 1) * d == q * d - d) by (nonlinear_arith);
    } else if k > q + 1 {
        assert(k * d >= (q + 2) * d) by (nonlinear_arith)
            requires
                k >= q + 2,
                d > 0,
        ;
        assert((q + 2) * d == q * d + 2 * d) by (nonlinear_arith);
    }
}

/// Rounding leaves a value alone that has 53 significant bits and an
/// exponent in range.
pub proof fn lemma_rounded_exact(negative: bool, significand: nat, exponent: int)
    requires
        pow2(52) <= significand < pow2(53),
        EXPONENT_MIN <= exponent <= EXPONENT_MAX,
    ensures
        rounded(negative, significand, exponent - 53) == (Value::Regular {
            negative,
            significand,
            exponent,
        }),
{
    lemma2_to64();
    lemma_bit_length_unique(significand, 53);
    assert(significand * pow2(0) == significand) by (nonlinear_arith)
        requires
            pow2(0) == 1,
    ;
}

/// Multiplying a regular number by one gives the number back.
pub proof fn lemma_product_by_one(a: Value)
    requires
        a is Regular,
        a.wf(),
    ensures
        Value::from_int(1) == (Value::Regular { negative: false, significand: pow2(52), exponent: 1 }),
        a.product(Value::from_int(1)) == a,
{
    lemma2_to64();
    lemma_pow2_wide();
    lemma_rounded_exact(false, pow2(52), 1);
    assert(bit_length(1) == 1) by {
        lemma_bit_length_unique(1, 1);
    }
    let s: nat = a->significand;
    let m: nat = s * pow2(52);
    lemma_pow2_adds(52, 52);
    lemma_pow2_adds(53, 52);
    lemma_mul_inequality(pow2(52) as int, s as int, pow2(52) as int);
    lemma_mul_strict_inequality(s as int, pow2(53) as int, pow2(52) as int);
    lemma_bit_length_unique(m, 105);
    lemma_round_exact(s, pow2(52));
}

/// The text of an integer: its decimal digits behind a minus sign where it
/// is negative.
pub open spec fn int_text(n: int) -> Seq<char> {
    if n < 0 {
        seq!['-'] + decimal(magnitude_of(n))
    } else {
        decimal(magnitude_of(n))
    }
}

/// An integer of at most 53 significant bits, made into a number, renders
/// as its own decimal digits.
pub proof fn lemma_int_text(n: int)
    requires
        -0x20_0000_0000_0000 <= n <= 0x20_0000_0000_0000,
    ensures
        Value::from_int(n).rendered() == int_text(n),
        Value::from_int(n).nearest_integer() == n,
{
    lemma_int_round_trip(n);
}

} // verus!
