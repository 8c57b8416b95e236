//! The mathematical model: what a number is, and how two numbers compare.

use vstd::arithmetic::power2::pow2;
use vstd::prelude::*;

verus! {

/// Number of significand bits that every number keeps.
pub const PRECISION: u32 = 53;

/// Largest binary exponent of a regular number.
pub const EXPONENT_MAX: i64 = 1_073_741_823;

/// Smallest binary exponent of a regular number.
pub const EXPONENT_MIN: i64 = -1_073_741_823;

/// What a number stands for.
///
/// A regular number with significand `m` and exponent `e` has the magnitude
/// `m * 2^(e - 53)`; as `2^52 <= m < 2^53`, that magnitude lies in
/// `[2^(e - 1), 2^e)`.
pub enum Value {
    /// Not a number.
    Nan,
    /// An infinity of either sign.
    Infinity { negative: bool },
    /// A zero of either sign.
    Zero { negative: bool },
    /// A finite number other than zero.
    Regular { negative: bool, significand: nat, exponent: int },
}

/// The outcome of comparing two numbers.
#[derive(Clone, Copy, Debug, PartialEq, Eq, Structural)]
pub enum Comparison {
    /// The first number is below the second.
    Less,
    /// The two numbers have the same value.
    Equal,
    /// The first number is above the second.
    Greater,
    /// One of the two is NaN.
    Unordered,
}

/// The magnitude of an integer.
pub open spec fn magnitude_of(n: int) -> nat {
    if n < 0 {
        (-n) as nat
    } else {
        n as nat
    }
}

/// The unit in which two numbers are counted together: the smaller of their
/// own.
pub open spec fn common_unit(a: Value, b: Value) -> int {
    if a.unit() <= b.unit() {
        a.unit()
    } else {
        b.unit()
    }
}

impl Value {
    /// A regular number has a normalised significand and an exponent in range.
    pub open spec fn wf(self) -> bool {
        self matches Value::Regular { significand, exponent, .. } ==> {
            &&& pow2(52) <= significand < pow2(53)
            &&& EXPONENT_MIN <= exponent <= EXPONENT_MAX
        }
    }

    /// Neither NaN nor an infinity.
    pub open spec fn is_number(self) -> bool {
        self is Zero || self is Regular
    }

    /// The exponent of the last place of a regular number; 0 for the others.
    pub open spec fn unit(self) -> int {
        match self {
            Value::Regular { exponent, .. } => exponent - 53,
            _ => 0,
        }
    }

    /// The magnitude of a finite number, counted in multiples of `2^unit`,
    /// for a `unit` that is not above the number's own.
    pub open spec fn magnitude(self, unit: int) -> nat {
        match self {
            Value::Regular { significand, exponent, .. } => significand * pow2(
                (exponent - 53 - unit) as nat,
            ),
            _ => 0,
        }
    }

    /// Whether the number carries the negative sign; NaN carries none.
    pub open spec fn is_negative(self) -> bool {
        match self {
            Value::Nan => false,
            Value::Infinity { negative } => negative,
            Value::Zero { negative } => negative,
            Value::Regular { negative, .. } => negative,
        }
    }

    /// The value of a finite number, counted in multiples of `2^unit`, for a
    /// `unit` that is not above the number's own.
    pub open spec fn scaled(self, unit: int) -> int {
        if self.is_negative() {
            -(self.magnitude(unit) as int)
        } else {
            self.magnitude(unit) as int
        }
    }

    /// The same number with the opposite sign; NaN stays NaN.
    pub open spec fn negated(self) -> Value {
        match self {
            Value::Nan => Value::Nan,
            Value::Infinity { negative } => Value::Infinity { negative: !negative },
            Value::Zero { negative } => Value::Zero { negative: !negative },
            Value::Regular { negative, significand, exponent } => Value::Regular {
                negative: !negative,
                significand,
                exponent,
            },
        }
    }

    /// The order of two numbers by their values. The two zeros are equal;
    /// NaN is unordered with everything, itself included.
    pub open spec fn compare(self, other: Value) -> Comparison {
        match (self, other) {
            (Value::Nan, _) => Comparison::Unordered,
            (_, Value::Nan) => Comparison::Unordered,
            (Value::Infinity { negative: a }, Value::Infinity { negative: b }) => {
                if a == b {
                    Comparison::Equal
                } else if a {
                    Comparison::Less
                } else {
                    Comparison::Greater
                }
            },
            (Value::Infinity { negative }, _) => {
                if negative {
                    Comparison::Less
                } else {
                    Comparison::Greater
                }
            },
            (_, Value::Infinity { negative }) => {
                if negative {
                    Comparison::Greater
                } else {
                    Comparison::Less
                }
            },
            _ => {
                let unit = common_unit(self, other);
                if self.scaled(unit) < other.scaled(unit) {
                    Comparison::Less
                } else if self.scaled(unit) == other.scaled(unit) {
                    Comparison::Equal
                } else {
                    Comparison::Greater
                }
            },
        }
    }
}

} // verus!
