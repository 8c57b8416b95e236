use mpfr::MPFR;

fn of(x: f64) -> MPFR {
    MPFR::from_float(x.to_bits())
}

fn back(x: &MPFR) -> f64 {
    f64::from_bits(x.to_float())
}

#[test]
fn add() {
    assert!(MPFR::from_int(3i64) + MPFR::from_int(4i64) == MPFR::from_int(7i64))
}

#[test]
fn sub() {
    assert!(
        MPFR::from_int(10i64) - MPFR::from_float(3.5f64.to_bits())
            == MPFR::from_float(6.5f64.to_bits())
    )
}

#[test]
fn mul() {
    assert!(MPFR::from_int(3i64) * MPFR::from_int(4i64) == MPFR::from_int(12i64))
}

#[test]
fn div() {
    assert!(MPFR::from_int(5i64) / MPFR::from_int(2i64) == MPFR::from_float(2.5f64.to_bits()))
}

#[test]
fn named_operations_agree_with_the_operators() {
    assert!(MPFR::from_int(3).add(MPFR::from_int(4)).is_equal_to_int(7));
    assert!(MPFR::from_int(3).subtract(MPFR::from_int(4)).is_equal_to_int(-1));
    assert!(MPFR::from_int(3).multiply(MPFR::from_int(4)).is_equal_to_int(12));
    assert!(MPFR::from_int(12).divide(MPFR::from_int(4)).is_equal_to_int(3));
}

struct Doubles {
    state: u64,
}

impl Doubles {
    fn next_bits(&mut self) -> u64 {
        self.state = self.state.wrapping_mul(6364136223846793005).wrapping_add(1442695040888963407);
        let mut z = self.state;
        z ^= z >> 33;
        z = z.wrapping_mul(0xff51afd7ed558ccd);
        z ^= z >> 29;
        z
    }

    /// A double whose exponent lies within `spread` of zero.
    fn next(&mut self, spread: u64) -> f64 {
        let bits = self.next_bits();
        let sign = bits & 0x8000_0000_0000_0000;
        let fraction = bits & 0x000f_ffff_ffff_ffff;
        let exponent = 1023 - spread + (self.next_bits() % (2 * spread + 1));
        f64::from_bits(sign | (exponent << 52) | fraction)
    }
}

fn check_all(x: f64, y: f64) {
    assert_eq!((of(x) + of(y)).to_float(), (x + y).to_bits(), "{:e} + {:e}", x, y);
    assert_eq!((of(x) - of(y)).to_float(), (x - y).to_bits(), "{:e} - {:e}", x, y);
    assert_eq!((of(x) * of(y)).to_float(), (x * y).to_bits(), "{:e} * {:e}", x, y);
    assert_eq!((of(x) / of(y)).to_float(), (x / y).to_bits(), "{:e} / {:e}", x, y);
}

#[test]
fn results_agree_with_double_arithmetic() {
    let mut source = Doubles { state: 0x5eed_1234_abcd_ef01 };
    for _ in 0..20000 {
        let x = source.next(3);
        let y = source.next(3);
        check_all(x, y);
    }
    for _ in 0..20000 {
        let x = source.next(60);
        let y = source.next(60);
        check_all(x, y);
    }
    for _ in 0..20000 {
        let x = source.next(400);
        let y = source.next(400);
        check_all(x, y);
    }
}

#[test]
fn near_values_agree_with_double_arithmetic() {
    let mut source = Doubles { state: 0x0dd_ba11 };
    for _ in 0..20000 {
        let x = source.next(2);
        let low = source.next_bits() % 64;
        let y = f64::from_bits(x.to_bits() ^ low);
        check_all(x, y);
        check_all(x, -y);
        let few = f64::from_bits((x.to_bits() & !0xffff_ffff) | (low << 30));
        check_all(few, y);
        check_all(y, few);
    }
}

#[test]
fn small_integers_agree_with_double_arithmetic() {
    for a in -40i64..=40 {
        for b in -40i64..=40 {
            if a != 0 && b != 0 {
                check_all(a as f64, b as f64);
                check_all(a as f64 * 0.125, b as f64 * 4096.0);
            }
        }
    }
}

#[test]
fn distant_operands_leave_the_larger() {
    let pairs = [
        (1.0, 1e-30),
        (1.0, -1e-30),
        (-1.0, 1e-30),
        (1e300, 1.0),
        (1e300, -1.0),
        (4503599627370496.0, 1e-10),
        (4503599627370496.0, -1e-10),
        (9007199254740991.0, 1e-10),
        (9007199254740991.0, -1e-10),
        (1.0, 5e-324),
        (1.0, -5e-324),
        (1.0, 1.1102230246251565e-16),
        (1.0, -1.1102230246251565e-16),
        (1.0, 5.551115123125783e-17),
        (1.0, -5.551115123125783e-17),
        (1.0, -5.5511151231257839e-17),
        (1.0, 1.1102230246251568e-16),
    ];
    for (x, y) in pairs.iter() {
        check_all(*x, *y);
        assert_eq!((of(*y) + of(*x)).to_float(), (y + x).to_bits());
        assert_eq!((of(*y) - of(*x)).to_float(), (y - x).to_bits());
    }
}

#[test]
fn zeros_follow_the_sign_rules() {
    assert_eq!((of(1.5) - of(1.5)).to_float(), 0f64.to_bits());
    assert_eq!((of(-1.5) + of(1.5)).to_float(), 0f64.to_bits());
    assert_eq!((MPFR::zero() + MPFR::negative_zero()).to_float(), 0f64.to_bits());
    assert_eq!((MPFR::negative_zero() + MPFR::zero()).to_float(), 0f64.to_bits());
    assert_eq!((MPFR::negative_zero() + MPFR::negative_zero()).to_float(), (-0f64).to_bits());
    assert_eq!((MPFR::negative_zero() - MPFR::zero()).to_float(), (-0f64).to_bits());
    assert_eq!((MPFR::zero() - MPFR::zero()).to_float(), 0f64.to_bits());
    assert_eq!((MPFR::zero() + of(-2.0)).to_float(), (-2f64).to_bits());
    assert_eq!((of(-2.0) + MPFR::negative_zero()).to_float(), (-2f64).to_bits());
    assert_eq!((MPFR::zero() - of(2.0)).to_float(), (-2f64).to_bits());
    assert_eq!((MPFR::zero() * of(-2.0)).to_float(), (-0f64).to_bits());
    assert_eq!((MPFR::negative_zero() * of(-2.0)).to_float(), 0f64.to_bits());
    assert_eq!((MPFR::zero() / of(-2.0)).to_float(), (-0f64).to_bits());
    assert_eq!((of(3.0) / MPFR::infinity()).to_float(), 0f64.to_bits());
    assert_eq!((of(-3.0) / MPFR::infinity()).to_float(), (-0f64).to_bits());
}

#[test]
fn infinities_follow_the_sign_rules() {
    assert_eq!(back(&(MPFR::infinity() + of(1.0))), f64::INFINITY);
    assert_eq!(back(&(of(1.0) + MPFR::negative_infinity())), f64::NEG_INFINITY);
    assert_eq!(back(&(MPFR::infinity() + MPFR::infinity())), f64::INFINITY);
    assert_eq!(back(&(MPFR::infinity() - MPFR::negative_infinity())), f64::INFINITY);
    assert_eq!(back(&(of(1.0) - MPFR::infinity())), f64::NEG_INFINITY);
    assert_eq!(back(&(MPFR::infinity() * of(-2.0))), f64::NEG_INFINITY);
    assert_eq!(back(&(MPFR::negative_infinity() * MPFR::negative_infinity())), f64::INFINITY);
    assert_eq!(back(&(MPFR::infinity() / of(-2.0))), f64::NEG_INFINITY);
    assert_eq!(back(&(MPFR::infinity() / MPFR::negative_zero())), f64::NEG_INFINITY);
    assert_eq!(back(&(of(1.0) / MPFR::zero())), f64::INFINITY);
    assert_eq!(back(&(of(-1.0) / MPFR::zero())), f64::NEG_INFINITY);
    assert_eq!(back(&(of(1.0) / MPFR::negative_zero())), f64::NEG_INFINITY);
}

#[test]
fn undefined_results_are_nan() {
    assert!((MPFR::infinity() - MPFR::infinity()).is_nan());
    assert!((MPFR::infinity() + MPFR::negative_infinity()).is_nan());
    assert!((MPFR::negative_infinity() + MPFR::infinity()).is_nan());
    assert!((MPFR::infinity() * MPFR::zero()).is_nan());
    assert!((MPFR::negative_zero() * MPFR::infinity()).is_nan());
    assert!((MPFR::zero() / MPFR::zero()).is_nan());
    assert!((MPFR::infinity() / MPFR::infinity()).is_nan());
    assert!((MPFR::nan() + of(1.0)).is_nan());
    assert!((of(1.0) + MPFR::nan()).is_nan());
    assert!((MPFR::nan() - of(1.0)).is_nan());
    assert!((of(1.0) - MPFR::nan()).is_nan());
    assert!((MPFR::nan() * MPFR::zero()).is_nan());
    assert!((of(1.0) * MPFR::nan()).is_nan());
    assert!((MPFR::nan() / of(1.0)).is_nan());
    assert!((of(1.0) / MPFR::nan()).is_nan());
    assert!((MPFR::infinity() / MPFR::nan()).is_nan());
}

fn squared(x: &MPFR, times: u32) -> MPFR {
    let mut y = x.clone();
    for _ in 0..times {
        y = y.clone() * y;
    }
    y
}

#[test]
fn results_beyond_the_exponent_range() {
    let large = of(1.5e300);
    assert!(squared(&large, 19).is_regular());
    assert!(squared(&large, 21).is_infinity());
    assert!(squared(&large, 40).is_infinity());
    assert_eq!(squared(&of(-1.5e300), 21).to_float(), f64::INFINITY.to_bits());
    let negative = squared(&large, 20) * (MPFR::zero() - squared(&large, 19));
    assert!(negative.is_infinity());
    assert_eq!(negative.to_float(), f64::NEG_INFINITY.to_bits());
    let small = of(1.5e-300);
    assert!(squared(&small, 19).is_regular());
    assert!(squared(&small, 21).is_zero());
    let negative = squared(&small, 20) * (MPFR::zero() - squared(&small, 20));
    assert!(negative.is_zero());
    assert_eq!(negative.to_float(), (-0f64).to_bits());
    assert!((squared(&large, 20) / squared(&small, 20)).is_infinity());
    assert!((squared(&small, 20) / squared(&large, 20)).is_zero());
    assert!((squared(&large, 20) + squared(&large, 20)).is_regular());
}

fn power_of_two(exponent: i64) -> MPFR {
    let mut result = of(1.0);
    let mut factor = if exponent < 0 { of(0.5) } else { of(2.0) };
    let mut rest = exponent.unsigned_abs();
    while rest > 0 {
        if rest & 1 == 1 {
            result = result * factor.clone();
        }
        factor = factor.clone() * factor;
        rest >>= 1;
    }
    result
}

#[test]
fn the_ends_of_the_exponent_range() {
    let top: i64 = 1_073_741_823;
    let largest_binade = power_of_two(top - 1);
    assert!(largest_binade.is_regular());
    assert!((largest_binade.clone() + largest_binade.clone()).is_infinity());
    assert!((largest_binade.clone() * of(2.0)).is_infinity());
    assert!((largest_binade.clone() * of(1.9999999999999998)).is_regular());
    assert!((largest_binade.clone() / of(0.5)).is_infinity());
    let least = power_of_two(-top - 1);
    assert!(least.is_regular());
    assert!((least.clone() * of(0.5)).is_zero());
    assert!((least.clone() / of(2.0)).is_zero());
    let above_half = least.clone() * of(0.5000000000000001);
    assert!(above_half.is_regular());
    assert!(above_half == least);
    assert!((least.clone() * of(0.25)).is_zero());
    assert!((least.clone() * of(0.75)) == least);
    assert!((least.clone() * of(0.9999999999999999)) == least);
    let next = least.clone() * of(1.0000000000000002);
    assert!(next > least);
    assert!((next.clone() - least.clone()).is_zero());
    assert!(!(next.clone() - least.clone()).is_nan());
    let further = least.clone() * of(1.75);
    let gap = further - least.clone();
    assert!(gap == least);
    assert!(((least.clone() * of(1.5)) - least.clone()).is_zero());
    assert!((least.clone() / of(1.0000000000000002)) == least);
    assert!((least.clone() / of(1.9999999999999998)) == least);
}
