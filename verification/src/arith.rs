//! The four arithmetic operations, each rounded correctly to nearest.

use crate::binary::{lemma_bit_length_unique, lemma_pow2_monotonic, lemma_pow2_wide, pow2_u128};
use crate::number::{Class, MPFR};
use crate::rounding::{
    bounded, lemma_quotient_between, nearest, round_half_even, round_half_even_u128, rounded,
    vanishes,
};
use crate::value::{common_unit, magnitude_of, Value, EXPONENT_MIN};
use vstd::arithmetic::div_mod::{
    lemma_fundamental_div_mod, lemma_fundamental_div_mod_converse, lemma_mod_bound,
};
use vstd::arithmetic::mul::{
    lemma_mul_inequality, lemma_mul_strict_inequality, lemma_mul_strict_upper_bound,
    lemma_mul_strictly_positive,
};
use vstd::arithmetic::power2::{lemma2_to64, lemma_pow2_adds, lemma_pow2_pos, pow2};
use vstd::prelude::*;

verus! {

impl Value {
    /// The sum, rounded to nearest. NaN where an operand is NaN or the two
    /// are infinities of opposite signs. An exact zero is positive, unless
    /// both operands are negative zeros.
    pub open spec fn sum(self, other: Value) -> Value {
        match (self, other) {
            (Value::Nan, _) => Value::Nan,
            (_, Value::Nan) => Value::Nan,
            (Value::Infinity { negative: a }, Value::Infinity { negative: b }) => if a == b {
                self
            } else {
                Value::Nan
            },
            (Value::Infinity { .. }, _) => self,
            (_, Value::Infinity { .. }) => other,
            (Value::Zero { negative: a }, Value::Zero { negative: b }) => Value::Zero {
                negative: a && b,
            },
            (Value::Zero { .. }, _) => other,
            (_, Value::Zero { .. }) => self,
            _ => {
                let unit = common_unit(self, other);
                let total = self.scaled(unit) + other.scaled(unit);
                if total == 0 {
                    Value::Zero { negative: false }
                } else {
                    rounded(total < 0, magnitude_of(total), unit)
                }
            },
        }
    }

    /// The difference, rounded to nearest: the sum with the negated operand.
    pub open spec fn difference(self, other: Value) -> Value {
        self.sum(other.negated())
    }

    /// The product, rounded to nearest. NaN where an operand is NaN or a
    /// zero meets an infinity. The sign is the product of the signs.
    pub open spec fn product(self, other: Value) -> Value {
        let negative = self.is_negative() != other.is_negative();
        match (self, other) {
            (Value::Nan, _) => Value::Nan,
            (_, Value::Nan) => Value::Nan,
            (Value::Infinity { .. }, Value::Zero { .. }) => Value::Nan,
            (Value::Zero { .. }, Value::Infinity { .. }) => Value::Nan,
            (Value::Infinity { .. }, _) => Value::Infinity { negative },
            (_, Value::Infinity { .. }) => Value::Infinity { negative },
            (Value::Zero { .. }, _) => Value::Zero { negative },
            (_, Value::Zero { .. }) => Value::Zero { negative },
            (
                Value::Regular { significand: a, exponent: x, .. },
                Value::Regular { significand: b, exponent: y, .. },
            ) => rounded(negative, a * b, x + y - 106),
        }
    }

    /// The quotient, rounded to nearest. NaN where an operand is NaN, both
    /// are zeros or both are infinities. A regular number or an infinity
    /// divided by a zero is an infinity. The sign is the product of the signs.
    pub open spec fn quotient(self, other: Value) -> Value {
        let negative = self.is_negative() != other.is_negative();
        match (self, other) {
            (Value::Nan, _) => Value::Nan,
            (_, Value::Nan) => Value::Nan,
            (Value::Infinity { .. }, Value::Infinity { .. }) => Value::Nan,
            (Value::Zero { .. }, Value::Zero { .. }) => Value::Nan,
            (Value::Infinity { .. }, _) => Value::Infinity { negative },
            (_, Value::Infinity { .. }) => Value::Zero { negative },
            (_, Value::Zero { .. }) => Value::Infinity { negative },
            (Value::Zero { .. }, _) => Value::Zero { negative },
            (
                Value::Regular { significand: a, exponent: x, .. },
                Value::Regular { significand: b, exponent: y, .. },
            ) => {
                let places: nat = if a >= b {
                    52
                } else {
                    53
                };
                let exponent = x - y + 53 - places;
                bounded(
                    negative,
                    round_half_even(a * pow2(places), b),
                    exponent,
                    vanishes(exponent, a == b),
                )
            },
        }
    }
}

/// The quotient of two normalised significands, moved up by the places that
/// bring it between `2^52` and `2^53`, rounds to a normalised significand.
pub proof fn lemma_quotient_significand(a: nat, b: nat)
    requires
        pow2(52) <= a < pow2(53),
        pow2(52) <= b < pow2(53),
    ensures
        pow2(52) <= round_half_even(
            a * pow2(
                if a >= b {
                    52nat
                } else {
                    53nat
                },
            ),
            b,
        ) < pow2(53),
{
    lemma_pow2_wide();
    let p: int = if a >= b {
        0x10_0000_0000_0000
    } else {
        0x20_0000_0000_0000
    };
    let n: int = a * p;
    let q: int = n / (b as int);
    let r: int = n % (b as int);
    lemma_fundamental_div_mod(n, b as int);
    lemma_mod_bound(n, b as int);
    assert(0x10_0000_0000_0000 * b <= n) by (nonlinear_arith)
        requires
            n == a * p,
            (a >= b && p == 0x10_0000_0000_0000) || (p == 0x20_0000_0000_0000 && b
                < 0x20_0000_0000_0000 <= 2 * a),
    ;
    assert(n <= 0x1f_ffff_ffff_ffff * b) by (nonlinear_arith)
        requires
            n == a * p,
            (p == 0x10_0000_0000_0000 && a <= 0x1f_ffff_ffff_ffff && 0x10_0000_0000_0000 <= b)
                || (p == 0x20_0000_0000_0000 && a < b < 0x20_0000_0000_0000),
    ;
    lemma_quotient_between(n, b as int, 0x10_0000_0000_0000, 0x20_0000_0000_0000);
    if q == 0x1f_ffff_ffff_ffff {
        assert(b * q == q * b) by (nonlinear_arith);
        assert(r == 0);
    }
}

/// A number at least 55 binary places below another is lost when it is
/// added to it.
pub proof fn lemma_nearest_far_above(s: nat, y: nat, gap: nat)
    requires
        pow2(52) <= s < pow2(53),
        0 < y < pow2(53),
        gap >= 55,
    ensures
        nearest(s * pow2(gap) + y) == (s, (53 + gap) as int),
{
    let d: nat = pow2(gap);
    let n: nat = s * d + y;
    lemma_pow2_wide();
    lemma_pow2_monotonic(54, gap);
    lemma_pow2_adds(52, gap);
    lemma_pow2_adds(53, gap);
    lemma_mul_inequality(pow2(52) as int, s as int, d as int);
    lemma_mul_inequality((s + 1) as int, pow2(53) as int, d as int);
    assert((s + 1) * d == s * d + d) by (nonlinear_arith);
    lemma_bit_length_unique(n, 53 + gap);
    lemma_fundamental_div_mod_converse(n as int, d as int, s as int, y as int);
}

/// A number at least 55 binary places below another is lost when it is
/// subtracted from it.
pub proof fn lemma_nearest_far_below(s: nat, y: nat, gap: nat)
    requires
        pow2(52) <= s < pow2(53),
        0 < y < pow2(53),
        gap >= 55,
    ensures
        s * pow2(gap) > y,
        nearest((s * pow2(gap) - y) as nat) == (s, (53 + gap) as int),
{
    let d: nat = pow2(gap);
    lemma_pow2_wide();
    lemma_pow2_monotonic(54, gap);
    lemma_pow2_adds(52, gap);
    lemma_pow2_adds(53, gap);
    lemma_mul_inequality(pow2(52) as int, s as int, d as int);
    lemma_mul_strict_inequality(s as int, pow2(53) as int, d as int);
    let n: nat = (s * d - y) as nat;
    if s > pow2(52) {
        lemma_mul_inequality((pow2(52) + 1) as int, s as int, d as int);
        lemma_bit_length_unique(n, 53 + gap);
        assert((s - 1) * d + (d - y) == s * d - y) by (nonlinear_arith);
        lemma_fundamental_div_mod_converse(n as int, d as int, s - 1, d - y);
    } else {
        let h: nat = pow2((gap - 1) as nat);
        lemma_pow2_monotonic(54, (gap - 1) as nat);
        lemma_pow2_adds(52, (gap - 1) as nat);
        lemma_pow2_adds(53, (gap - 1) as nat);
        lemma_pow2_adds(51, gap);
        lemma_pow2_adds(1, (gap - 1) as nat);
        lemma2_to64();
        vstd::arithmetic::power2::lemma_pow2_unfold(52);
        assert(pow2(52) * d == pow2(53) * h) by (nonlinear_arith)
            requires
                d == 2 * h,
                pow2(53) == 2 * pow2(52),
        ;
        assert(pow2(51) * d == pow2(52) * h) by (nonlinear_arith)
            requires
                d == 2 * h,
                pow2(52) == 2 * pow2(51),
        ;
        assert(pow2(52) * h >= pow2(52)) by (nonlinear_arith)
            requires
                h >= 1,
        ;
        lemma_bit_length_unique(n, 52 + gap);
        lemma_fundamental_div_mod_converse(n as int, h as int, pow2(53) - 1, h - y);
    }
}

/// Of two regular numbers whose exponents differ by more than 64, the sum is
/// the one with the larger exponent.
pub proof fn lemma_sum_far(high: Value, low: Value)
    requires
        high is Regular,
        low is Regular,
        high.wf(),
        low.wf(),
        high->exponent - low->exponent > 64,
    ensures
        high.sum(low) == high,
{
    let gap: nat = (high->exponent - low->exponent) as nat;
    let unit: int = common_unit(high, low);
    let s: nat = high->significand;
    let y: nat = low->significand;
    lemma2_to64();
    lemma_pow2_wide();
    assert((low->exponent - 53 - unit) as nat == 0);
    lemma_nearest_far_above(s, y, gap);
    lemma_nearest_far_below(s, y, gap);
}

impl MPFR {
    /// The sum of two regular numbers of which the first has the larger or
    /// the same exponent.
    fn add_ordered(high: MPFR, low: MPFR) -> (r: MPFR)
        requires
            high@ is Regular,
            low@ is Regular,
            high@->exponent >= low@->exponent,
        ensures
            r@ == high@.sum(low@),
            r@.wf(),
    {
        proof {
            use_type_invariant(&high);
            use_type_invariant(&low);
            lemma_pow2_wide();
            lemma2_to64();
        }
        let gap: i64 = high.exponent - low.exponent;
        if gap > 64 {
            proof {
                lemma_sum_far(high@, low@);
            }
            return high;
        }
        let p: u128 = pow2_u128(gap as u32);
        proof {
            lemma_pow2_monotonic(gap as nat, 64);
            lemma_pow2_pos(gap as nat);
            lemma_mul_strict_upper_bound(
                high.significand as int,
                0x20_0000_0000_0000,
                p as int,
                0x1_0000_0000_0000_0001,
            );
            lemma_mul_strictly_positive(high.significand as int, p as int);
        }
        let x: u128 = high.significand as u128 * p;
        let y: u128 = low.significand as u128;
        let unit: i64 = low.exponent - 53;
        proof {
            assert((low@->exponent - 53 - unit) as nat == 0);
        }
        if high.negative == low.negative {
            MPFR::rounded(high.negative, x + y, unit)
        } else if x == y {
            MPFR::signed_zero(false)
        } else if x > y {
            MPFR::rounded(high.negative, x - y, unit)
        } else {
            MPFR::rounded(low.negative, y - x, unit)
        }
    }

    /// The sum of the two numbers, rounded to nearest.
    pub fn add(self, other: MPFR) -> (r: MPFR)
        ensures
            r@ == self@.sum(other@),
            r@.wf(),
    {
        proof {
            use_type_invariant(&self);
            use_type_invariant(&other);
            lemma_pow2_wide();
        }
        if self.class == Class::Nan || other.class == Class::Nan {
            return MPFR::nan();
        }
        if self.class == Class::Infinity {
            if other.class == Class::Infinity && self.negative != other.negative {
                return MPFR::nan();
            }
            return self;
        }
        if other.class == Class::Infinity {
            return other;
        }
        if self.class == Class::Zero {
            if other.class == Class::Zero {
                return MPFR::signed_zero(self.negative && other.negative);
            }
            return other;
        }
        if other.class == Class::Zero {
            return self;
        }
        if self.exponent >= other.exponent {
            MPFR::add_ordered(self, other)
        } else {
            MPFR::add_ordered(other, self)
        }
    }

    /// The number with the opposite sign; NaN stays NaN.
    pub(crate) fn negate(self) -> (r: MPFR)
        ensures
            r@ == self@.negated(),
            r@.wf(),
    {
        proof {
            use_type_invariant(&self);
            lemma_pow2_wide();
        }
        match self.class {
            Class::Nan => self,
            _ => MPFR {
                class: self.class,
                negative: !self.negative,
                significand: self.significand,
                exponent: self.exponent,
            },
        }
    }

    /// The difference of the two numbers, rounded to nearest.
    pub fn subtract(self, other: MPFR) -> (r: MPFR)
        ensures
            r@ == self@.difference(other@),
            r@.wf(),
    {
        self.add(other.negate())
    }

    /// The product of the two numbers, rounded to nearest.
    pub fn multiply(self, other: MPFR) -> (r: MPFR)
        ensures
            r@ == self@.product(other@),
            r@.wf(),
    {
        proof {
            use_type_invariant(&self);
            use_type_invariant(&other);
            lemma_pow2_wide();
        }
        let negative: bool = self.negative != other.negative;
        if self.class == Class::Nan || other.class == Class::Nan {
            return MPFR::nan();
        }
        if self.class == Class::Infinity || other.class == Class::Infinity {
            if self.class == Class::Zero || other.class == Class::Zero {
                return MPFR::nan();
            }
            return MPFR::signed_infinity(negative);
        }
        if self.class == Class::Zero || other.class == Class::Zero {
            return MPFR::signed_zero(negative);
        }
        proof {
            lemma_mul_strict_upper_bound(
                self.significand as int,
                0x20_0000_0000_0000,
                other.significand as int,
                0x20_0000_0000_0000,
            );
            lemma_mul_strictly_positive(self.significand as int, other.significand as int);
        }
        let exact: u128 = self.significand as u128 * other.significand as u128;
        MPFR::rounded(negative, exact, self.exponent + other.exponent - 106)
    }

    /// The quotient of the two numbers, rounded to nearest.
    pub fn divide(self, other: MPFR) -> (r: MPFR)
        ensures
            r@ == self@.quotient(other@),
            r@.wf(),
    {
        proof {
            use_type_invariant(&self);
            use_type_invariant(&other);
            lemma_pow2_wide();
        }
        let negative: bool = self.negative != other.negative;
        if self.class == Class::Nan || other.class == Class::Nan {
            return MPFR::nan();
        }
        if self.class == Class::Infinity {
            if other.class == Class::Infinity {
                return MPFR::nan();
            }
            return MPFR::signed_infinity(negative);
        }
        if other.class == Class::Infinity {
            return MPFR::signed_zero(negative);
        }
        if other.class == Class::Zero {
            if self.class == Class::Zero {
                return MPFR::nan();
            }
            return MPFR::signed_infinity(negative);
        }
        if self.class == Class::Zero {
            return MPFR::signed_zero(negative);
        }
        let places: u32 = if self.significand >= other.significand {
            52
        } else {
            53
        };
        let p: u128 = pow2_u128(places);
        proof {
            lemma_quotient_significand(self.significand as nat, other.significand as nat);
            lemma_mul_strict_upper_bound(
                self.significand as int,
                0x20_0000_0000_0000,
                p as int,
                0x20_0000_0000_0001,
            );
            vstd::arithmetic::div_mod::lemma_div_nonincreasing(
                self.significand as int * p as int,
                other.significand as int,
            );
        }
        let scaled: u128 = self.significand as u128 * p;
        let significand: u128 = round_half_even_u128(scaled, other.significand as u128);
        let exponent: i64 = self.exponent - other.exponent + 53 - places as i64;
        let vanishing: bool = exponent < EXPONENT_MIN - 1 || (exponent == EXPONENT_MIN - 1
            && self.significand == other.significand);
        MPFR::bounded(negative, significand as u64, exponent, vanishing)
    }
}

} // verus!
