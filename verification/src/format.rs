//! Decimal rendering of a number, rounded to an integer.

use crate::binary::lemma_pow2_wide;
use crate::number::{Class, MPFR};
use crate::value::{magnitude_of, Value};
use vstd::arithmetic::power2::{lemma2_to64, lemma_pow2_unfold, pow2};
use vstd::prelude::*;

verus! {

/// The character of a decimal digit.
pub open spec fn digit_char(d: nat) -> char {
    if d == 0 {
        '0'
    } else if d == 1 {
        '1'
    } else if d == 2 {
        '2'
    } else if d == 3 {
        '3'
    } else if d == 4 {
        '4'
    } else if d == 5 {
        '5'
    } else if d == 6 {
        '6'
    } else if d == 7 {
        '7'
    } else if d == 8 {
        '8'
    } else {
        '9'
    }
}

/// The decimal digits of `n`, most significant first, without leading zeros.
pub open spec fn decimal(n: nat) -> Seq<char>
    decreases n,
{
    if n < 10 {
        seq![digit_char(n)]
    } else {
        decimal(n / 10).push(digit_char(n % 10))
    }
}

/// `10^k`.
pub open spec fn pow10(k: nat) -> nat
    decreases k,
{
    if k == 0 {
        1
    } else {
        10 * pow10((k - 1) as nat)
    }
}

/// The number that a sequence of decimal digits stands for, least
/// significant digit first.
pub open spec fn digits_value(s: Seq<u8>) -> nat
    decreases s.len(),
{
    if s.len() == 0 {
        0
    } else {
        s[0] as nat + 10 * digits_value(s.drop_first())
    }
}

/// The characters of a sequence of decimal digits, in reading order: the
/// last digit of the sequence comes first.
pub open spec fn digits_text(s: Seq<u8>) -> Seq<char>
    decreases s.len(),
{
    if s.len() == 0 {
        Seq::empty()
    } else {
        digits_text(s.drop_first()).push(digit_char(s[0] as nat))
    }
}

/// A sequence of decimal digits with no needless zero at its upper end.
pub open spec fn canonical(s: Seq<u8>) -> bool {
    &&& s.len() >= 1
    &&& forall|i: int| 0 <= i < s.len() ==> #[trigger] s[i] < 10
    &&& s.len() > 1 ==> s.last() != 0
}

impl Value {
    /// The text of the number: the decimal digits of the nearest integer
    /// (ties to even) behind a minus sign where the number is negative, and
    /// `nan`, `inf` or `-inf` for what is no number.
    pub open spec fn rendered(self) -> Seq<char> {
        match self {
            Value::Nan => seq!['n', 'a', 'n'],
            Value::Infinity { negative } => if negative {
                seq!['-', 'i', 'n', 'f']
            } else {
                seq!['i', 'n', 'f']
            },
            Value::Zero { negative } => if negative {
                seq!['-', '0']
            } else {
                seq!['0']
            },
            Value::Regular { negative, .. } => {
                let digits = decimal(magnitude_of(self.nearest_integer()));
                if negative {
                    seq!['-'] + digits
                } else {
                    digits
                }
            },
        }
    }
}

/// A digit appended at the upper end counts by the power of ten of its place.
pub proof fn lemma_digits_push(s: Seq<u8>, d: u8)
    ensures
        digits_value(s.push(d)) == digits_value(s) + d * pow10(s.len()),
    decreases s.len(),
{
    let longer: Seq<u8> = s.push(d);
    assert(digits_value(longer) == longer[0] as nat + 10 * digits_value(longer.drop_first()));
    if s.len() == 0 {
        assert(d * pow10(0) == d) by (nonlinear_arith)
            requires
                pow10(0) == 1,
        ;
    } else {
        let rest: Seq<u8> = s.drop_first();
        lemma_digits_push(rest, d);
        assert(longer.drop_first() =~= rest.push(d));
        assert(10 * (d * pow10(rest.len())) == d * pow10(s.len())) by (nonlinear_arith)
            requires
                pow10(s.len()) == 10 * pow10(rest.len()),
        ;
    }
}

/// Digits whose uppermost one is not zero stand for a positive number.
pub proof fn lemma_digits_positive(s: Seq<u8>)
    requires
        s.len() >= 1,
        s.last() != 0,
    ensures
        digits_value(s) >= 1,
    decreases s.len(),
{
    if s.len() > 1 {
        lemma_digits_positive(s.drop_first());
    }
}

/// Canonical digits read as the decimal text of their number.
pub proof fn lemma_digits_text(s: Seq<u8>)
    requires
        canonical(s),
    ensures
        digits_text(s) == decimal(digits_value(s)),
    decreases s.len(),
{
    let rest: Seq<u8> = s.drop_first();
    assert(s[0] < 10);
    assert(digits_text(s) == digits_text(rest).push(digit_char(s[0] as nat)));
    if s.len() > 1 {
        assert forall|i: int| 0 <= i < rest.len() implies #[trigger] rest[i] < 10 by {}
        lemma_digits_positive(rest);
        lemma_digits_text(rest);
    }
}

/// The text of a decimal digit.
fn digit_str(d: u8) -> (s: &'static str)
    requires
        d < 10,
    ensures
        s@ == seq![digit_char(d as nat)],
{
    proof {
        reveal_strlit("0");
        reveal_strlit("1");
        reveal_strlit("2");
        reveal_strlit("3");
        reveal_strlit("4");
        reveal_strlit("5");
        reveal_strlit("6");
        reveal_strlit("7");
        reveal_strlit("8");
        reveal_strlit("9");
    }
    let s: &'static str = if d == 0 {
        "0"
    } else if d == 1 {
        "1"
    } else if d == 2 {
        "2"
    } else if d == 3 {
        "3"
    } else if d == 4 {
        "4"
    } else if d == 5 {
        "5"
    } else if d == 6 {
        "6"
    } else if d == 7 {
        "7"
    } else if d == 8 {
        "8"
    } else {
        "9"
    };
    s
}

/// The decimal digits of a machine integer, least significant first.
fn digits_of(m: u64) -> (digits: Vec<u8>)
    ensures
        canonical(digits@),
        digits_value(digits@) == m,
{
    let mut digits: Vec<u8> = Vec::new();
    let mut rest: u64 = m;
    proof {
        assert(rest * pow10(0) == rest) by (nonlinear_arith)
            requires
                pow10(0) == 1,
        ;
    }
    while rest >= 10
        invariant
            digits_value(digits@) + rest * pow10(digits@.len()) == m,
            forall|i: int| 0 <= i < digits@.len() ==> #[trigger] digits@[i] < 10,
            m >= 1 ==> rest >= 1,
            rest <= m,
            m == 0 ==> digits@.len() == 0,
        decreases rest,
    {
        let low: u8 = (rest % 10) as u8;
        proof {
            lemma_digits_push(digits@, low);
            assert(low * pow10(digits@.len()) + (rest / 10) * pow10(digits@.len() + 1) == rest
                * pow10(digits@.len())) by (nonlinear_arith)
                requires
                    pow10(digits@.len() + 1) == 10 * pow10(digits@.len()),
                    rest == 10 * (rest / 10) + low,
            ;
        }
        digits.push(low);
        rest = rest / 10;
    }
    proof {
        lemma_digits_push(digits@, rest as u8);
    }
    digits.push(rest as u8);
    digits
}

/// The digits of twice the number that `digits` stands for.
fn doubled(digits: &Vec<u8>) -> (out: Vec<u8>)
    requires
        canonical(digits@),
    ensures
        canonical(out@),
        digits_value(out@) == 2 * digits_value(digits@),
{
    let n: usize = digits.len();
    let mut out: Vec<u8> = Vec::new();
    let mut carry: u8 = 0;
    let mut i: usize = 0;
    while i < n
        invariant
            n == digits@.len(),
            canonical(digits@),
            i <= n,
            out@.len() == i,
            carry <= 1,
            digits_value(out@) + carry * pow10(i as nat) == 2 * digits_value(
                digits@.subrange(0, i as int),
            ),
            forall|j: int| 0 <= j < out@.len() ==> #[trigger] out@[j] < 10,
            i >= 1 && digits@[i - 1] != 0 && carry == 0 ==> out@[i - 1] != 0,
        decreases n - i,
    {
        let d: u8 = digits[i];
        let v: u8 = 2 * d + carry;
        let low: u8 = v % 10;
        let high: u8 = v / 10;
        proof {
            let prefix: Seq<u8> = digits@.subrange(0, i as int);
            assert(digits@.subrange(0, i + 1) =~= prefix.push(d));
            lemma_digits_push(prefix, d);
            lemma_digits_push(out@, low);
            let p: nat = pow10(i as nat);
            assert(low * p + high * pow10((i + 1) as nat) == (2 * d + carry) * p)
                by (nonlinear_arith)
                requires
                    pow10((i + 1) as nat) == 10 * p,
                    low + 10 * high == 2 * d + carry,
            ;
            assert((2 * d + carry) * p == 2 * (d * p) + carry * p) by (nonlinear_arith);
        }
        out.push(low);
        carry = high;
        i = i + 1;
    }
    proof {
        assert(digits@.subrange(0, n as int) =~= digits@);
        lemma_digits_push(out@, carry);
    }
    if carry > 0 {
        out.push(carry);
    }
    out
}

impl MPFR {
    /// The decimal digits of the magnitude of the nearest integer, least
    /// significant first.
    fn integer_digits(&self) -> (digits: Vec<u8>)
        requires
            self@ is Regular,
        ensures
            canonical(digits@),
            digits_value(digits@) == magnitude_of(self@.nearest_integer()),
    {
        proof {
            use_type_invariant(self);
            lemma_pow2_wide();
            lemma2_to64();
        }
        if self.exponent <= 53 {
            digits_of(self.small_integer())
        } else {
            let places: i64 = self.exponent - 53;
            let mut digits: Vec<u8> = digits_of(self.significand);
            let mut k: i64 = 0;
            proof {
                assert(self.significand * pow2(0) == self.significand) by (nonlinear_arith)
                    requires
                        pow2(0) == 1,
                ;
            }
            while k < places
                invariant
                    0 <= k <= places,
                    canonical(digits@),
                    digits_value(digits@) == self.significand * pow2(k as nat),
                decreases places - k,
            {
                proof {
                    lemma_pow2_unfold((k + 1) as nat);
                    assert(2 * (self.significand * pow2(k as nat)) == self.significand * (2 * pow2(
                        k as nat,
                    ))) by (nonlinear_arith);
                }
                digits = doubled(&digits);
                k = k + 1;
            }
            digits
        }
    }

    /// The text of the number: the decimal digits of the nearest integer,
    /// ties going to the even one, behind a minus sign where the number is
    /// negative; `nan`, `inf` or `-inf` for what is no number. The text is
    /// as long as the integer needs.
    pub fn to_string(&self) -> (text: String)
        ensures
            text@ == self@.rendered(),
    {
        proof {
            reveal_strlit("nan");
            reveal_strlit("inf");
            reveal_strlit("-inf");
            reveal_strlit("0");
            reveal_strlit("-0");
            reveal_strlit("-");
        }
        match self.class {
            Class::Nan => "nan".to_owned(),
            Class::Infinity => if self.negative {
                "-inf".to_owned()
            } else {
                "inf".to_owned()
            },
            Class::Zero => if self.negative {
                "-0".to_owned()
            } else {
                "0".to_owned()
            },
            Class::Regular => {
                let digits: Vec<u8> = self.integer_digits();
                let mut text: String = if self.negative {
                    "-".to_owned()
                } else {
                    String::new()
                };
                let ghost sign: Seq<char> = text@;
                let n: usize = digits.len();
                let mut i: usize = n;
                while i > 0
                    invariant
                        n == digits@.len(),
                        canonical(digits@),
                        i <= n,
                        text@ == sign + digits_text(digits@.subrange(i as int, n as int)),
                    decreases i,
                {
                    i = i - 1;
                    let piece: &'static str = digit_str(digits[i]);
                    proof {
                        let upper: Seq<u8> = digits@.subrange(i + 1, n as int);
                        let whole: Seq<u8> = digits@.subrange(i as int, n as int);
                        assert(whole.drop_first() =~= upper);
                    }
                    text.append(piece);
                }
                proof {
                    assert(digits@.subrange(0, n as int) =~= digits@);
                    lemma_digits_text(digits@);
                    assert(sign =~= if self.negative {
                        seq!['-']
                    } else {
                        Seq::<char>::empty()
                    });
                    assert(Seq::<char>::empty() + decimal(digits_value(digits@)) =~= decimal(
                        digits_value(digits@),
                    ));
                }
                text
            },
        }
    }
}

} // verus!
