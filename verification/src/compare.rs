//! Equality and order of numbers.

use crate::binary::{lemma_pow2_monotonic, lemma_pow2_wide};
use crate::number::{Class, MPFR};
use crate::value::{common_unit, Comparison, Value};
use vstd::arithmetic::mul::{lemma_mul_left_inequality, lemma_mul_strictly_positive};
use vstd::arithmetic::power2::{lemma2_to64, lemma_pow2_pos, pow2};
use vstd::prelude::*;

verus! {

/// A regular number has a positive magnitude in every unit that suits it.
pub proof fn lemma_magnitude_positive(a: Value, unit: int)
    requires
        a is Regular,
        a.wf(),
        unit <= a.unit(),
    ensures
        a.magnitude(unit) > 0,
{
    let k: nat = (a->exponent - 53 - unit) as nat;
    lemma_pow2_pos(k);
    lemma_pow2_pos(52);
    lemma_mul_strictly_positive(a->significand as int, pow2(k) as int);
}

/// Of two regular numbers, the one with the larger exponent has the larger
/// magnitude; with equal exponents the significands decide.
pub proof fn lemma_magnitude_order(a: Value, b: Value)
    requires
        a is Regular,
        b is Regular,
        a.wf(),
        b.wf(),
    ensures
        a->exponent > b->exponent ==> a.magnitude(common_unit(a, b)) > b.magnitude(
            common_unit(a, b),
        ),
        a->exponent < b->exponent ==> a.magnitude(common_unit(a, b)) < b.magnitude(
            common_unit(a, b),
        ),
        a->exponent == b->exponent ==> a.magnitude(common_unit(a, b)) == a->significand
            && b.magnitude(common_unit(a, b)) == b->significand,
{
    lemma2_to64();
    lemma_pow2_wide();
    if a->exponent > b->exponent {
        lemma_wider_is_larger(a->significand, b->significand, (a->exponent - b->exponent) as nat);
    } else if a->exponent < b->exponent {
        lemma_wider_is_larger(b->significand, a->significand, (b->exponent - a->exponent) as nat);
    } else {
        let unit: int = common_unit(a, b);
        assert(b.magnitude(unit) == b->significand * pow2(0));
    }
}

/// A normalised significand moved up by at least one place exceeds every
/// normalised significand.
pub proof fn lemma_wider_is_larger(high: nat, low: nat, places: nat)
    requires
        pow2(52) <= high < pow2(53),
        pow2(52) <= low < pow2(53),
        places >= 1,
    ensures
        high * pow2(places) > low * pow2(0),
{
    lemma2_to64();
    lemma_pow2_wide();
    lemma_pow2_monotonic(1, places);
    lemma_mul_left_inequality(high as int, 2, pow2(places) as int);
}

impl Comparison {
    /// The outcome for the two numbers taken in the other order.
    pub open spec fn reversed(self) -> Comparison {
        match self {
            Comparison::Less => Comparison::Greater,
            Comparison::Greater => Comparison::Less,
            other => other,
        }
    }

    /// Whether the first number is strictly below or strictly above the second.
    pub open spec fn is_strict(self) -> bool {
        self == Comparison::Less || self == Comparison::Greater
    }
}

impl MPFR {
    /// Compares two numbers by value. The outcome is `Unordered` exactly
    /// when one of them is NaN.
    pub fn three_way_compare(&self, other: &MPFR) -> (c: Comparison)
        ensures
            c == self@.compare(other@),
            c == Comparison::Unordered <==> (self@ is Nan || other@ is Nan),
    {
        proof {
            use_type_invariant(self);
            use_type_invariant(other);
            lemma_pow2_wide();
        }
        if self.class == Class::Nan || other.class == Class::Nan {
            return Comparison::Unordered;
        }
        if self.class == Class::Infinity {
            if other.class == Class::Infinity && self.negative == other.negative {
                return Comparison::Equal;
            }
            return if self.negative {
                Comparison::Less
            } else {
                Comparison::Greater
            };
        }
        if other.class == Class::Infinity {
            return if other.negative {
                Comparison::Greater
            } else {
                Comparison::Less
            };
        }
        let ghost unit = common_unit(self@, other@);
        if self.class == Class::Zero {
            if other.class == Class::Zero {
                return Comparison::Equal;
            }
            proof {
                lemma_magnitude_positive(other@, unit);
            }
            return if other.negative {
                Comparison::Greater
            } else {
                Comparison::Less
            };
        }
        proof {
            lemma_magnitude_positive(self@, unit);
        }
        if other.class == Class::Zero {
            return if self.negative {
                Comparison::Less
            } else {
                Comparison::Greater
            };
        }
        proof {
            lemma_magnitude_positive(other@, unit);
            lemma_magnitude_order(self@, other@);
        }
        if self.negative != other.negative {
            return if self.negative {
                Comparison::Less
            } else {
                Comparison::Greater
            };
        }
        let below: bool = self.exponent < other.exponent || (self.exponent == other.exponent
            && self.significand < other.significand);
        let same: bool = self.exponent == other.exponent && self.significand == other.significand;
        if same {
            Comparison::Equal
        } else if below != self.negative {
            Comparison::Less
        } else {
            Comparison::Greater
        }
    }

    /// Whether the two numbers are equal in value. False when one is NaN.
    pub fn equals(&self, other: &MPFR) -> (b: bool)
        ensures
            b == (self@.compare(other@) == Comparison::Equal),
    {
        self.three_way_compare(other) == Comparison::Equal
    }

    /// Whether one of the two numbers is strictly below the other. This is
    /// not the negation of `equals`: both are false when one number is NaN.
    pub fn not_equals(&self, other: &MPFR) -> (b: bool)
        ensures
            b == self@.compare(other@).is_strict(),
    {
        let c: Comparison = self.three_way_compare(other);
        c == Comparison::Less || c == Comparison::Greater
    }

    /// Whether this number is strictly below the other. False when one is NaN.
    pub fn less(&self, other: &MPFR) -> (b: bool)
        ensures
            b == (self@.compare(other@) == Comparison::Less),
    {
        self.three_way_compare(other) == Comparison::Less
    }

    /// Whether this number is below or equal to the other. False when one is
    /// NaN.
    pub fn less_or_equal(&self, other: &MPFR) -> (b: bool)
        ensures
            b == (self@.compare(other@) == Comparison::Less || self@.compare(other@)
                == Comparison::Equal),
    {
        let c: Comparison = self.three_way_compare(other);
        c == Comparison::Less || c == Comparison::Equal
    }

    /// Whether this number is strictly above the other. False when one is NaN.
    pub fn greater(&self, other: &MPFR) -> (b: bool)
        ensures
            b == (self@.compare(other@) == Comparison::Greater),
    {
        self.three_way_compare(other) == Comparison::Greater
    }

    /// Whether this number is above or equal to the other. False when one is
    /// NaN.
    pub fn greater_or_equal(&self, other: &MPFR) -> (b: bool)
        ensures
            b == (self@.compare(other@) == Comparison::Greater || self@.compare(other@)
                == Comparison::Equal),
    {
        let c: Comparison = self.three_way_compare(other);
        c == Comparison::Greater || c == Comparison::Equal
    }
}

} // verus!
