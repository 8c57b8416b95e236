//! Binary floating-point numbers with a 53-bit significand, correct rounding
//! to nearest (ties to even), signed zeros, infinities and NaN.
//!
//! The contract of every operation states its result over the mathematical
//! value of its operands, and is proved of the code.

pub mod arith;
pub mod binary;
pub mod compare;
pub mod convert;
pub mod format;
pub mod ieee;
pub mod laws;
pub mod number;
pub mod ops;
pub mod rounding;
pub mod value;

pub use number::MPFR;
pub use value::{Comparison, Value};
