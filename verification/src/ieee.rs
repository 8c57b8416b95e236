//! Conversions between numbers and IEEE 754 double-precision bit patterns.
//!
//! A pattern holds, from its upper end, one sign bit, eleven exponent bits
//! and 52 fraction bits.

use crate::binary::{
    bit_length, lemma_bit_length_below, lemma_bit_length_bounds, lemma_pow2_monotonic,
    lemma_pow2_wide, pow2_u128,
};
use crate::number::{Class, MPFR};
use crate::rounding::{
    lemma_round_exact, lemma_round_to_zero, round_half_even, round_half_even_u128, rounded,
};
use crate::value::{Comparison, Value};
use vstd::arithmetic::mul::{lemma_mul_inequality, lemma_mul_strict_inequality};
use vstd::arithmetic::power2::{lemma2_to64, lemma_pow2_adds, lemma_pow2_pos, pow2};
use vstd::prelude::*;

verus! {

/// The sign bit of a pattern.
pub open spec fn double_negative(bits: u64) -> bool {
    bits >= 0x8000_0000_0000_0000
}

/// The exponent field of a pattern.
pub open spec fn double_exponent(bits: u64) -> nat {
    ((bits / 0x10_0000_0000_0000) % 0x800) as nat
}

/// The fraction field of a pattern.
pub open spec fn double_fraction(bits: u64) -> nat {
    (bits % 0x10_0000_0000_0000) as nat
}

/// The pattern made of the three fields.
pub open spec fn double_bits(negative: bool, exponent: nat, fraction: nat) -> nat {
    let sign: nat = if negative {
        0x8000_0000_0000_0000
    } else {
        0
    };
    sign + exponent * 0x10_0000_0000_0000 + fraction
}

/// Whether a pattern stands for NaN.
pub open spec fn double_is_nan(bits: u64) -> bool {
    double_exponent(bits) == 2047 && double_fraction(bits) != 0
}

impl Value {
    /// The value of a double. With exponent field `e` and fraction `f`, a
    /// normal double is `(2^52 + f) * 2^(e - 1075)` and a subnormal one is
    /// `f * 2^-1074`; every double is a number of 53 bits, so nothing is
    /// rounded. An infinity or a NaN converts to itself.
    pub open spec fn from_double(bits: u64) -> Value {
        let negative = double_negative(bits);
        let e = double_exponent(bits);
        let f = double_fraction(bits);
        if e == 2047 {
            if f == 0 {
                Value::Infinity { negative }
            } else {
                Value::Nan
            }
        } else if e == 0 {
            if f == 0 {
                Value::Zero { negative }
            } else {
                rounded(negative, f, -1074)
            }
        } else {
            Value::Regular { negative, significand: pow2(52) + f, exponent: e - 1022 }
        }
    }

    /// The double nearest to the number, ties going to the even one. A
    /// magnitude of `2^1024` or more becomes an infinity; one below the
    /// normal doubles is rounded to a multiple of `2^-1074`, which may be
    /// zero. NaN becomes the quiet NaN with a clear sign and fraction.
    pub open spec fn to_double(self) -> nat {
        match self {
            Value::Nan => 0x7ff8_0000_0000_0000,
            Value::Infinity { negative } => double_bits(negative, 2047, 0),
            Value::Zero { negative } => double_bits(negative, 0, 0),
            Value::Regular { negative, significand, exponent } => {
                if exponent > 1024 {
                    double_bits(negative, 2047, 0)
                } else if exponent >= -1021 {
                    double_bits(
                        negative,
                        (exponent + 1022) as nat,
                        (significand - pow2(52)) as nat,
                    )
                } else {
                    double_bits(
                        negative,
                        0,
                        round_half_even(significand, pow2((-1021 - exponent) as nat)),
                    )
                }
            },
        }
    }
}

/// Every double that is not NaN survives the conversion to a number and
/// back, bit for bit.
pub proof fn lemma_double_round_trip(bits: u64)
    requires
        !double_is_nan(bits),
    ensures
        Value::from_double(bits).wf(),
        Value::from_double(bits).to_double() == bits,
{
    lemma_pow2_wide();
    lemma2_to64();
    let e: nat = double_exponent(bits);
    let f: nat = double_fraction(bits);
    if e == 0 && f != 0 {
        let len: nat = bit_length(f);
        lemma_bit_length_bounds(f);
        lemma_bit_length_below(f, 52);
        let shift: nat = (53 - len) as nat;
        lemma_pow2_pos(shift);
        lemma_pow2_adds(len, shift);
        lemma_pow2_adds((len - 1) as nat, shift);
        lemma_mul_inequality(pow2((len - 1) as nat) as int, f as int, pow2(shift) as int);
        lemma_mul_strict_inequality(f as int, pow2(len) as int, pow2(shift) as int);
        lemma_round_exact(f, pow2(shift));
    }
}

/// A NaN double converts to NaN, which converts to the quiet NaN.
pub proof fn lemma_double_nan(bits: u64)
    requires
        double_is_nan(bits),
    ensures
        Value::from_double(bits) is Nan,
        double_is_nan(Value::Nan.to_double() as u64),
{
}

impl MPFR {
    /// The number with the value of the double whose bit pattern is `bits`.
    /// The conversion is exact; an infinity or a NaN converts to itself.
    pub fn from_float(bits: u64) -> (r: MPFR)
        ensures
            r@ == Value::from_double(bits),
            r@.wf(),
    {
        proof {
            lemma_pow2_wide();
        }
        let negative: bool = bits >= 0x8000_0000_0000_0000;
        let e: u64 = (bits / 0x10_0000_0000_0000) % 0x800;
        let f: u64 = bits % 0x10_0000_0000_0000;
        if e == 2047 {
            if f == 0 {
                MPFR::signed_infinity(negative)
            } else {
                MPFR::nan()
            }
        } else if e == 0 {
            if f == 0 {
                MPFR::signed_zero(negative)
            } else {
                MPFR::rounded(negative, f as u128, -1074)
            }
        } else {
            MPFR::regular(negative, 0x10_0000_0000_0000 + f, e as i64 - 1022)
        }
    }

    /// The bit pattern of the double nearest to the number, ties going to
    /// the even one. What is too large for a double becomes an infinity,
    /// what is too small a subnormal double or a zero.
    pub fn to_float(&self) -> (bits: u64)
        ensures
            bits == self@.to_double(),
    {
        proof {
            use_type_invariant(self);
            lemma_pow2_wide();
        }
        let sign: u64 = if self.negative {
            0x8000_0000_0000_0000
        } else {
            0
        };
        match self.class {
            Class::Nan => 0x7ff8_0000_0000_0000,
            Class::Infinity => sign + 0x7ff0_0000_0000_0000,
            Class::Zero => sign,
            Class::Regular => {
                if self.exponent > 1024 {
                    sign + 0x7ff0_0000_0000_0000
                } else if self.exponent >= -1021 {
                    let field: u64 = (self.exponent + 1022) as u64;
                    sign + field * 0x10_0000_0000_0000 + (self.significand - 0x10_0000_0000_0000)
                } else if self.exponent < -1075 {
                    proof {
                        lemma_pow2_monotonic(54, (-1021 - self.exponent) as nat);
                        lemma_round_to_zero(
                            self.significand as nat,
                            pow2((-1021 - self.exponent) as nat),
                        );
                    }
                    sign
                } else {
                    let d: u128 = pow2_u128((-1021 - self.exponent) as u32);
                    proof {
                        lemma_pow2_monotonic(1, (-1021 - self.exponent) as nat);
                        lemma2_to64();
                        vstd::arithmetic::div_mod::lemma_div_is_ordered_by_denominator(
                            self.significand as int,
                            2,
                            d as int,
                        );
                    }
                    let fraction: u128 = round_half_even_u128(self.significand as u128, d);
                    sign + fraction as u64
                }
            },
        }
    }

    /// Whether the number equals the double whose bit pattern is `bits`.
    /// False when either is NaN; the two zeros are equal.
    pub fn is_equal_to_float(&self, bits: u64) -> (b: bool)
        ensures
            b == (self@.compare(Value::from_double(bits)) == Comparison::Equal),
    {
        let other: MPFR = MPFR::from_float(bits);
        self.equals(&other)
    }
}

} // verus!
