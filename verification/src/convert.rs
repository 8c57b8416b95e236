//! Conversions between numbers and machine integers.

use crate::binary::{
    bit_length, lemma_bit_length_below, lemma_bit_length_bounds, lemma_bit_length_unique,
    lemma_pow2_monotonic, lemma_pow2_wide, pow2_u128,
};
use crate::number::{Class, MPFR};
use crate::rounding::{
    lemma_round_exact, lemma_round_to_zero, round_half_even, round_half_even_u128, rounded,
};
use crate::value::{magnitude_of, Value};
use vstd::arithmetic::div_mod::lemma_div_nonincreasing;
use vstd::arithmetic::mul::{
    lemma_mul_inequality, lemma_mul_left_inequality, lemma_mul_strict_inequality,
    lemma_mul_strictly_positive, lemma_mul_unary_negation, lemma_mul_upper_bound,
};
use vstd::arithmetic::power2::{lemma2_to64, lemma_pow2_adds, lemma_pow2_pos, pow2};
use vstd::prelude::*;

verus! {

impl Value {
    /// The number nearest to the integer `n`: `n` itself where it has at most
    /// 53 significant bits. Zero converts to the positive zero.
    pub open spec fn from_int(n: int) -> Value {
        if n == 0 {
            Value::Zero { negative: false }
        } else {
            rounded(n < 0, magnitude_of(n), 0)
        }
    }

    /// The integer nearest to a finite number; of two equally near ones, the
    /// even one.
    pub open spec fn nearest_integer(self) -> int {
        match self {
            Value::Regular { negative, significand, exponent } => {
                let m = if exponent <= 53 {
                    round_half_even(significand, pow2((53 - exponent) as nat))
                } else {
                    significand * pow2((exponent - 53) as nat)
                };
                if negative {
                    -(m as int)
                } else {
                    m as int
                }
            },
            _ => 0,
        }
    }

    /// The number as a 64-bit integer: the nearest integer, held to the range
    /// of the type. An infinity gives the end of the range on its side, NaN
    /// gives 0.
    pub open spec fn to_int(self) -> int {
        match self {
            Value::Nan => 0,
            Value::Infinity { negative } => if negative {
                i64::MIN as int
            } else {
                i64::MAX as int
            },
            _ => {
                let n = self.nearest_integer();
                if n < i64::MIN {
                    i64::MIN as int
                } else if n > i64::MAX {
                    i64::MAX as int
                } else {
                    n
                }
            },
        }
    }

    /// Whether the number has exactly the value of the integer `n`.
    pub open spec fn equals_int(self, n: int) -> bool {
        match self {
            Value::Zero { .. } => n == 0,
            Value::Regular { .. } => {
                let unit = if self.unit() <= 0 {
                    self.unit()
                } else {
                    0
                };
                self.scaled(unit) == n * pow2((-unit) as nat)
            },
            _ => false,
        }
    }
}

/// An integer of at most 53 significant bits survives the conversion to a
/// number and back.
pub proof fn lemma_int_round_trip(n: int)
    requires
        -0x20_0000_0000_0000 <= n <= 0x20_0000_0000_0000,
    ensures
        Value::from_int(n).wf(),
        Value::from_int(n).to_int() == n,
        n != 0 ==> Value::from_int(n) is Regular,
{
    lemma_pow2_wide();
    lemma2_to64();
    if n != 0 {
        let m: nat = magnitude_of(n);
        let len: nat = bit_length(m);
        lemma_bit_length_bounds(m);
        if m == 0x20_0000_0000_0000 {
            lemma_bit_length_unique(m, 54);
        } else {
            lemma_bit_length_below(m, 53);
            let shift: nat = (53 - len) as nat;
            lemma_pow2_pos(shift);
            lemma_pow2_adds(len, shift);
            lemma_pow2_adds((len - 1) as nat, shift);
            lemma_mul_inequality(pow2((len - 1) as nat) as int, m as int, pow2(shift) as int);
            lemma_mul_strict_inequality(m as int, pow2(len) as int, pow2(shift) as int);
            lemma_round_exact(m, pow2(shift));
        }
    }
}

/// The magnitude of a machine integer.
pub(crate) fn magnitude_of_i64(n: i64) -> (m: u64)
    ensures
        m == magnitude_of(n as int),
{
    if n >= 0 {
        n as u64
    } else if n == i64::MIN {
        0x8000_0000_0000_0000
    } else {
        (-n) as u64
    }
}

impl MPFR {
    /// The number nearest to `value`. The conversion is exact where `value`
    /// has at most 53 significant bits, as every integer of magnitude up to
    /// `2^53` has.
    pub fn from_int(value: i64) -> (r: MPFR)
        ensures
            r@ == Value::from_int(value as int),
            r@.wf(),
    {
        if value == 0 {
            MPFR::signed_zero(false)
        } else {
            MPFR::rounded(value < 0, magnitude_of_i64(value) as u128, 0)
        }
    }

    /// The magnitude of the integer nearest to a regular number below `2^53`.
    pub(crate) fn small_integer(&self) -> (m: u64)
        requires
            self@ is Regular,
            self@->exponent <= 53,
        ensures
            m == round_half_even(self@->significand, pow2((53 - self@->exponent) as nat)),
            m <= 0x20_0000_0000_0000,
    {
        proof {
            use_type_invariant(self);
            lemma_pow2_wide();
        }
        if self.exponent < 0 {
            proof {
                lemma_pow2_monotonic(54, (53 - self.exponent) as nat);
                lemma_round_to_zero(self.significand as nat, pow2((53 - self.exponent) as nat));
            }
            0
        } else {
            let d: u128 = pow2_u128((53 - self.exponent) as u32);
            proof {
                lemma_pow2_pos((53 - self.exponent) as nat);
                lemma_div_nonincreasing(self.significand as int, d as int);
            }
            let s: u128 = round_half_even_u128(self.significand as u128, d);
            s as u64
        }
    }

    /// The integer nearest to the number, ties going to the even one, held
    /// to the range of `i64`. An infinity gives the end of the range on its
    /// side, NaN gives 0.
    pub fn to_int(&self) -> (n: i64)
        ensures
            n == self@.to_int(),
    {
        proof {
            use_type_invariant(self);
            lemma_pow2_wide();
            lemma2_to64();
        }
        match self.class {
            Class::Nan => 0,
            Class::Infinity => if self.negative {
                i64::MIN
            } else {
                i64::MAX
            },
            Class::Zero => 0,
            Class::Regular => {
                if self.exponent <= 53 {
                    let s: u64 = self.small_integer();
                    if self.negative {
                        -(s as i64)
                    } else {
                        s as i64
                    }
                } else if self.exponent <= 63 {
                    let p: u128 = pow2_u128((self.exponent - 53) as u32);
                    proof {
                        lemma_pow2_monotonic((self.exponent - 53) as nat, 10);
                        lemma_mul_left_inequality(self.significand as int, p as int, 1024);
                    }
                    let s: u128 = self.significand as u128 * p;
                    if self.negative {
                        -(s as i64)
                    } else {
                        s as i64
                    }
                } else {
                    proof {
                        let p: nat = pow2((self.exponent - 53) as nat);
                        lemma_pow2_monotonic(11, (self.exponent - 53) as nat);
                        lemma_pow2_adds(52, 11);
                        lemma_mul_left_inequality(self.significand as int, pow2(11) as int, p as int);
                        lemma_mul_inequality(
                            pow2(52) as int,
                            self.significand as int,
                            pow2(11) as int,
                        );
                    }
                    if self.negative {
                        i64::MIN
                    } else {
                        i64::MAX
                    }
                }
            },
        }
    }

    /// Whether the number has exactly the value of `value`. NaN and the
    /// infinities equal no integer; both zeros equal 0.
    pub fn is_equal_to_int(&self, value: i64) -> (b: bool)
        ensures
            b == self@.equals_int(value as int),
    {
        proof {
            use_type_invariant(self);
            lemma_pow2_wide();
            lemma2_to64();
        }
        match self.class {
            Class::Nan => false,
            Class::Infinity => false,
            Class::Zero => value == 0,
            Class::Regular => {
                let m: u64 = magnitude_of_i64(value);
                let ghost unit: int = if self@.unit() <= 0 {
                    self@.unit()
                } else {
                    0
                };
                let ghost shift: nat = (self.exponent - 53 - unit) as nat;
                proof {
                    lemma_pow2_pos(shift);
                    lemma_pow2_pos((-unit) as nat);
                    lemma_mul_strictly_positive(self.significand as int, pow2(shift) as int);
                }
                if value == 0 {
                    false
                } else if (value < 0) != self.negative {
                    proof {
                        lemma_mul_strictly_positive(m as int, pow2((-unit) as nat) as int);
                        lemma_mul_unary_negation(m as int, pow2((-unit) as nat) as int);
                    }
                    assert(!self@.equals_int(value as int));
                    false
                } else if self.exponent < 1 {
                    proof {
                        lemma_pow2_monotonic(53, (-unit) as nat);
                        lemma_mul_left_inequality(
                            m as int,
                            pow2(53) as int,
                            pow2((-unit) as nat) as int,
                        );
                        lemma_mul_unary_negation(m as int, pow2((-unit) as nat) as int);
                    }
                    false
                } else if self.exponent <= 53 {
                    let d: u128 = pow2_u128((53 - self.exponent) as u32);
                    proof {
                        lemma_pow2_monotonic((53 - self.exponent) as nat, 52);
                        lemma_mul_upper_bound(
                            m as int,
                            0xffff_ffff_ffff_ffff,
                            d as int,
                            0x10_0000_0000_0000,
                        );
                        lemma_mul_unary_negation(m as int, d as int);
                    }
                    let scaled: u128 = m as u128 * d;
                    scaled == self.significand as u128
                } else if self.exponent <= 64 {
                    let p: u128 = pow2_u128((self.exponent - 53) as u32);
                    proof {
                        lemma_pow2_monotonic((self.exponent - 53) as nat, 11);
                        lemma_mul_left_inequality(self.significand as int, p as int, 2048);
                    }
                    let s: u128 = self.significand as u128 * p;
                    s == m as u128
                } else {
                    proof {
                        let p: nat = pow2(shift);
                        lemma_pow2_monotonic(12, shift);
                        lemma_pow2_adds(52, 12);
                        lemma_mul_left_inequality(self.significand as int, pow2(12) as int, p as int);
                        lemma_mul_inequality(
                            pow2(52) as int,
                            self.significand as int,
                            pow2(12) as int,
                        );
                    }
                    false
                }
            },
        }
    }
}

} // verus!
