//! The number type, its special values and its classification.

use crate::binary::{bit_length_u128, lemma_pow2_wide};
use crate::rounding::{bounded, is_power_of_two_u128, nearest_u128, rounded};
use crate::value::{Value, EXPONENT_MAX, EXPONENT_MIN};
use vstd::arithmetic::power2::pow2;
use vstd::prelude::*;

verus! {

/// The four kinds of number, of which every number has exactly one.
#[derive(Clone, Copy, Debug, PartialEq, Eq, Structural)]
pub(crate) enum Class {
    Nan,
    Infinity,
    Zero,
    Regular,
}

/// A binary floating-point number with 53 significant bits.
///
/// A number is NaN, an infinity, a zero, or a regular (finite, nonzero)
/// number; infinities and zeros carry a sign. A number is complete from the
/// moment it is made, owns all that it holds, and never changes.
#[derive(Debug)]
pub struct MPFR {
    pub(crate) class: Class,
    pub(crate) negative: bool,
    pub(crate) significand: u64,
    pub(crate) exponent: i64,
}

impl View for MPFR {
    type V = Value;

    open(crate) spec fn view(&self) -> Value {
        match self.class {
            Class::Nan => Value::Nan,
            Class::Infinity => Value::Infinity { negative: self.negative },
            Class::Zero => Value::Zero { negative: self.negative },
            Class::Regular => Value::Regular {
                negative: self.negative,
                significand: self.significand as nat,
                exponent: self.exponent as int,
            },
        }
    }
}

impl MPFR {
    /// Each value has one representation: a regular number is normalised and
    /// in range, and the fields that a kind does not use are cleared.
    #[verifier::type_invariant]
    pub(crate) open(crate) spec fn inv(self) -> bool {
        match self.class {
            Class::Regular => {
                &&& 0x10_0000_0000_0000 <= self.significand < 0x20_0000_0000_0000
                &&& EXPONENT_MIN <= self.exponent <= EXPONENT_MAX
            },
            Class::Nan => !self.negative && self.significand == 0 && self.exponent == 0,
            _ => self.significand == 0 && self.exponent == 0,
        }
    }

    /// The one number that stands for a value.
    pub open(crate) spec fn of(value: Value) -> MPFR {
        match value {
            Value::Nan => MPFR { class: Class::Nan, negative: false, significand: 0, exponent: 0 },
            Value::Infinity { negative } => MPFR {
                class: Class::Infinity,
                negative,
                significand: 0,
                exponent: 0,
            },
            Value::Zero { negative } => MPFR {
                class: Class::Zero,
                negative,
                significand: 0,
                exponent: 0,
            },
            Value::Regular { negative, significand, exponent } => MPFR {
                class: Class::Regular,
                negative,
                significand: significand as u64,
                exponent: exponent as i64,
            },
        }
    }

    /// No two numbers stand for the same value.
    pub(crate) proof fn lemma_one_representation(self)
        requires
            self.inv(),
        ensures
            self == MPFR::of(self@),
    {
    }

    /// The regular number of the given sign, significand and exponent.
    pub(crate) fn regular(negative: bool, significand: u64, exponent: i64) -> (r: MPFR)
        requires
            pow2(52) <= significand < pow2(53),
            EXPONENT_MIN <= exponent <= EXPONENT_MAX,
        ensures
            r@ == (Value::Regular {
                negative,
                significand: significand as nat,
                exponent: exponent as int,
            }),
            r@.wf(),
    {
        proof {
            lemma_pow2_wide();
        }
        MPFR { class: Class::Regular, negative, significand, exponent }
    }

    /// The infinity of the given sign.
    pub(crate) fn signed_infinity(negative: bool) -> (r: MPFR)
        ensures
            r@ == (Value::Infinity { negative }),
            r@.wf(),
    {
        MPFR { class: Class::Infinity, negative, significand: 0, exponent: 0 }
    }

    /// The zero of the given sign.
    pub(crate) fn signed_zero(negative: bool) -> (r: MPFR)
        ensures
            r@ == (Value::Zero { negative }),
            r@.wf(),
    {
        MPFR { class: Class::Zero, negative, significand: 0, exponent: 0 }
    }

    /// A rounded result fitted into the exponent range.
    pub(crate) fn bounded(negative: bool, significand: u64, exponent: i64, vanishing: bool) -> (r:
        MPFR)
        requires
            pow2(52) <= significand < pow2(53),
        ensures
            r@ == bounded(negative, significand as nat, exponent as int, vanishing),
            r@.wf(),
    {
        proof {
            lemma_pow2_wide();
        }
        if exponent > EXPONENT_MAX {
            MPFR::signed_infinity(negative)
        } else if exponent >= EXPONENT_MIN {
            MPFR::regular(negative, significand, exponent)
        } else if vanishing {
            MPFR::signed_zero(negative)
        } else {
            MPFR::regular(negative, 0x10_0000_0000_0000, EXPONENT_MIN)
        }
    }

    /// The number that the exact value `m * 2^e` of the given sign rounds to.
    pub(crate) fn rounded(negative: bool, m: u128, e: i64) -> (r: MPFR)
        requires
            m > 0,
            -0x1_0000_0000_0000 <= e <= 0x1_0000_0000_0000,
        ensures
            r@ == rounded(negative, m as nat, e as int),
            r@.wf(),
    {
        let (significand, exponent) = nearest_u128(m);
        let len: u32 = bit_length_u128(m);
        let power_of_two: bool = is_power_of_two_u128(m);
        let exact: i64 = e + len as i64;
        let vanishing: bool = exact < EXPONENT_MIN - 1 || (exact == EXPONENT_MIN - 1
            && power_of_two);
        MPFR::bounded(negative, significand, e + exponent as i64, vanishing)
    }

    /// Not a number.
    pub fn nan() -> (r: MPFR)
        ensures
            r@ == Value::Nan,
    {
        MPFR { class: Class::Nan, negative: false, significand: 0, exponent: 0 }
    }

    /// Positive infinity.
    pub fn infinity() -> (r: MPFR)
        ensures
            r@ == (Value::Infinity { negative: false }),
    {
        MPFR::signed_infinity(false)
    }

    /// Negative infinity.
    pub fn negative_infinity() -> (r: MPFR)
        ensures
            r@ == (Value::Infinity { negative: true }),
    {
        MPFR::signed_infinity(true)
    }

    /// Zero with the positive sign.
    pub fn zero() -> (r: MPFR)
        ensures
            r@ == (Value::Zero { negative: false }),
    {
        MPFR::signed_zero(false)
    }

    /// Zero with the negative sign.
    pub fn negative_zero() -> (r: MPFR)
        ensures
            r@ == (Value::Zero { negative: true }),
    {
        MPFR::signed_zero(true)
    }

    /// Whether the number is NaN.
    pub fn is_nan(&self) -> (b: bool)
        ensures
            b == (self@ is Nan),
    {
        self.class == Class::Nan
    }

    /// Whether the number is an infinity of either sign.
    pub fn is_infinity(&self) -> (b: bool)
        ensures
            b == (self@ is Infinity),
    {
        self.class == Class::Infinity
    }

    /// Whether the number is a zero of either sign.
    pub fn is_zero(&self) -> (b: bool)
        ensures
            b == (self@ is Zero),
    {
        self.class == Class::Zero
    }

    /// Whether the number is neither NaN nor an infinity.
    pub fn is_number(&self) -> (b: bool)
        ensures
            b == self@.is_number(),
            b == !(self@ is Nan || self@ is Infinity),
    {
        self.class == Class::Zero || self.class == Class::Regular
    }

    /// Whether the number is finite and not zero.
    pub fn is_regular(&self) -> (b: bool)
        ensures
            b == (self@ is Regular),
            b == !(self@ is Nan || self@ is Infinity || self@ is Zero),
    {
        self.class == Class::Regular
    }
}

} // verus!
