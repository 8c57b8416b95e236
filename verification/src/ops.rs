//! The operators `==`, `!=`, `<`, `<=`, `>`, `>=`, `+`, `-`, `*` and `/` on
//! numbers, and `clone`.

use crate::number::MPFR;
use crate::value::Comparison;
use core::cmp::Ordering;
use core::ops::{Add, Div, Mul, Sub};
use vstd::prelude::*;
use vstd::std_specs::cmp::{PartialEqSpecImpl, PartialOrdSpecImpl};
use vstd::std_specs::ops::{AddSpecImpl, DivSpecImpl, MulSpecImpl, SubSpecImpl};

verus! {

/// The outcome of a comparison in the form that `partial_cmp` gives.
pub open spec fn ordering_of(c: Comparison) -> Option<Ordering> {
    match c {
        Comparison::Less => Some(Ordering::Less),
        Comparison::Equal => Some(Ordering::Equal),
        Comparison::Greater => Some(Ordering::Greater),
        Comparison::Unordered => None,
    }
}

impl Clone for MPFR {
    fn clone(&self) -> (r: MPFR)
        ensures
            r@ == self@,
            r == *self,
    {
        proof {
            use_type_invariant(self);
        }
        MPFR {
            class: self.class,
            negative: self.negative,
            significand: self.significand,
            exponent: self.exponent,
        }
    }
}

impl PartialEq for MPFR {
    /// `==`: equal in value. False when one of the two is NaN.
    fn eq(&self, other: &MPFR) -> (b: bool)
        ensures
            b == (self@.compare(other@) == Comparison::Equal),
    {
        self.equals(other)
    }

    /// `!=`: one of the two is strictly below the other. False when one of
    /// the two is NaN, so this is not the negation of `==`.
    fn ne(&self, other: &MPFR) -> (b: bool)
        ensures
            b == self@.compare(other@).is_strict(),
    {
        self.not_equals(other)
    }
}

impl PartialEqSpecImpl for MPFR {
    /// `!=` is not the negation of `==` on NaN.
    open spec fn obeys_eq_spec() -> bool {
        false
    }

    open spec fn eq_spec(&self, other: &MPFR) -> bool {
        self@.compare(other@) == Comparison::Equal
    }
}

impl PartialOrd for MPFR {
    /// The order of the two numbers; `None` when one of them is NaN.
    fn partial_cmp(&self, other: &MPFR) -> (o: Option<Ordering>)
        ensures
            o == ordering_of(self@.compare(other@)),
    {
        match self.three_way_compare(other) {
            Comparison::Less => Some(Ordering::Less),
            Comparison::Equal => Some(Ordering::Equal),
            Comparison::Greater => Some(Ordering::Greater),
            Comparison::Unordered => None,
        }
    }

    fn lt(&self, other: &MPFR) -> (b: bool)
        ensures
            b == (self@.compare(other@) == Comparison::Less),
    {
        self.less(other)
    }

    fn le(&self, other: &MPFR) -> (b: bool)
        ensures
            b == (self@.compare(other@) == Comparison::Less || self@.compare(other@)
                == Comparison::Equal),
    {
        self.less_or_equal(other)
    }

    fn gt(&self, other: &MPFR) -> (b: bool)
        ensures
            b == (self@.compare(other@) == Comparison::Greater),
    {
        self.greater(other)
    }

    fn ge(&self, other: &MPFR) -> (b: bool)
        ensures
            b == (self@.compare(other@) == Comparison::Greater || self@.compare(other@)
                == Comparison::Equal),
    {
        self.greater_or_equal(other)
    }
}

impl PartialOrdSpecImpl for MPFR {
    open spec fn obeys_partial_cmp_spec() -> bool {
        true
    }

    open spec fn partial_cmp_spec(&self, other: &MPFR) -> Option<Ordering> {
        ordering_of(self@.compare(other@))
    }
}

impl Add for MPFR {
    type Output = MPFR;

    /// `+`: the sum, rounded to nearest.
    fn add(self, other: MPFR) -> (r: MPFR)
        ensures
            r@ == self@.sum(other@),
            r@.wf(),
    {
        let r: MPFR = MPFR::add(self, other);
        proof {
            use_type_invariant(&r);
            r.lemma_one_representation();
        }
        r
    }
}

impl AddSpecImpl for MPFR {
    open spec fn obeys_add_spec() -> bool {
        true
    }

    open spec fn add_req(self, other: MPFR) -> bool {
        true
    }

    open spec fn add_spec(self, other: MPFR) -> MPFR {
        MPFR::of(self@.sum(other@))
    }
}

impl Sub for MPFR {
    type Output = MPFR;

    /// `-`: the difference, rounded to nearest.
    fn sub(self, other: MPFR) -> (r: MPFR)
        ensures
            r@ == self@.difference(other@),
            r@.wf(),
    {
        let r: MPFR = self.subtract(other);
        proof {
            use_type_invariant(&r);
            r.lemma_one_representation();
        }
        r
    }
}

impl SubSpecImpl for MPFR {
    open spec fn obeys_sub_spec() -> bool {
        true
    }

    open spec fn sub_req(self, other: MPFR) -> bool {
        true
    }

    open spec fn sub_spec(self, other: MPFR) -> MPFR {
        MPFR::of(self@.difference(other@))
    }
}

impl Mul for MPFR {
    type Output = MPFR;

    /// `*`: the product, rounded to nearest.
    fn mul(self, other: MPFR) -> (r: MPFR)
        ensures
            r@ == self@.product(other@),
            r@.wf(),
    {
        let r: MPFR = self.multiply(other);
        proof {
            use_type_invariant(&r);
            r.lemma_one_representation();
        }
        r
    }
}

impl MulSpecImpl for MPFR {
    open spec fn obeys_mul_spec() -> bool {
        true
    }

    open spec fn mul_req(self, other: MPFR) -> bool {
        true
    }

    open spec fn mul_spec(self, other: MPFR) -> MPFR {
        MPFR::of(self@.product(other@))
    }
}

impl Div for MPFR {
    type Output = MPFR;

    /// `/`: the quotient, rounded to nearest.
    fn div(self, other: MPFR) -> (r: MPFR)
        ensures
            r@ == self@.quotient(other@),
            r@.wf(),
    {
        let r: MPFR = self.divide(other);
        proof {
            use_type_invariant(&r);
            r.lemma_one_representation();
        }
        r
    }
}

impl DivSpecImpl for MPFR {
    open spec fn obeys_div_spec() -> bool {
        true
    }

    open spec fn div_req(self, other: MPFR) -> bool {
        true
    }

    open spec fn div_spec(self, other: MPFR) -> MPFR {
        MPFR::of(self@.quotient(other@))
    }
}

} // verus!
