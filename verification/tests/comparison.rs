use mpfr::{Comparison, MPFR};
use std::cmp::Ordering;

fn of(x: f64) -> MPFR {
    MPFR::from_float(x.to_bits())
}

#[test]
fn eq() {
    assert!(MPFR::from_float(256f64.to_bits()) == MPFR::from_int(256i64))
}

#[test]
fn eq_2() {
    assert!(!(MPFR::from_float(256f64.to_bits()) == MPFR::from_int(128i64)))
}

#[test]
fn ne() {
    assert!(MPFR::from_int(7i64) != MPFR::from_int(77i64))
}

#[test]
fn ne_2() {
    assert!(!(MPFR::from_int(7i64) != MPFR::from_int(7i64)))
}

#[test]
fn less() {
    assert!(MPFR::from_int(7i64) < MPFR::from_int(8i64))
}

#[test]
fn less_2() {
    assert!(!(MPFR::from_int(7i64) < MPFR::from_int(6i64)))
}

#[test]
fn less_equal() {
    assert!(MPFR::from_int(7i64) <= MPFR::from_int(8i64))
}

#[test]
fn less_equal_2() {
    assert!(MPFR::from_int(7i64) <= MPFR::from_int(7i64))
}

#[test]
fn greater() {
    assert!(MPFR::from_int(7i64) > MPFR::from_int(6i64))
}

#[test]
fn greater_2() {
    assert!(!(MPFR::from_int(7i64) > MPFR::from_int(8i64)))
}

#[test]
fn greater_equal() {
    assert!(MPFR::from_int(7i64) >= MPFR::from_int(6i64))
}

#[test]
fn greater_equal_2() {
    assert!(MPFR::from_int(7i64) >= MPFR::from_int(7i64))
}

#[test]
fn equal_to_int() {
    assert!(MPFR::from_int(8i64).is_equal_to_int(8i64))
}

#[test]
fn equal_to_int_2() {
    assert!(!(MPFR::from_int(8i64).is_equal_to_int(9i64)))
}

#[test]
fn equal_to_float() {
    assert!(MPFR::from_int(8i64).is_equal_to_float(8f64.to_bits()))
}

#[test]
fn equal_to_float_2() {
    assert!(!(MPFR::from_int(8i64).is_equal_to_float(9f64.to_bits())))
}

#[test]
fn named_relations_agree_with_the_operators() {
    let a = MPFR::from_int(7);
    let b = MPFR::from_int(8);
    assert!(!a.equals(&b));
    assert!(a.not_equals(&b));
    assert!(a.less(&b));
    assert!(a.less_or_equal(&b));
    assert!(!a.greater(&b));
    assert!(!a.greater_or_equal(&b));
    assert!(b.greater(&a));
    assert!(b.greater_or_equal(&a));
    assert!(a.equals(&a));
    assert!(a.less_or_equal(&a));
    assert!(a.greater_or_equal(&a));
    assert!(!a.less(&a));
    assert!(!a.not_equals(&a));
}

#[test]
fn three_way_compare_orders_by_value() {
    assert_eq!(MPFR::from_int(7).three_way_compare(&MPFR::from_int(8)), Comparison::Less);
    assert_eq!(MPFR::from_int(8).three_way_compare(&MPFR::from_int(7)), Comparison::Greater);
    assert_eq!(MPFR::from_int(8).three_way_compare(&of(8.0)), Comparison::Equal);
    assert_eq!(MPFR::from_int(-8).three_way_compare(&MPFR::from_int(-7)), Comparison::Less);
    assert_eq!(MPFR::from_int(-7).three_way_compare(&MPFR::from_int(7)), Comparison::Less);
    assert_eq!(of(0.25).three_way_compare(&of(1024.0)), Comparison::Less);
    assert_eq!(of(-0.25).three_way_compare(&of(-1024.0)), Comparison::Greater);
    assert_eq!(of(1.0).three_way_compare(&of(1.0000000000000002)), Comparison::Less);
    assert_eq!(of(-1.0).three_way_compare(&of(-1.0000000000000002)), Comparison::Greater);
    assert_eq!(of(5e-324).three_way_compare(&MPFR::zero()), Comparison::Greater);
    assert_eq!(of(-5e-324).three_way_compare(&MPFR::zero()), Comparison::Less);
    assert_eq!(MPFR::zero().three_way_compare(&of(3.0)), Comparison::Less);
    assert_eq!(MPFR::zero().three_way_compare(&of(-3.0)), Comparison::Greater);
}

#[test]
fn the_two_zeros_are_equal() {
    assert_eq!(MPFR::zero().three_way_compare(&MPFR::negative_zero()), Comparison::Equal);
    assert!(MPFR::zero() == MPFR::negative_zero());
    assert!(!(MPFR::zero() != MPFR::negative_zero()));
    assert!(MPFR::negative_zero().is_equal_to_int(0));
    assert!(MPFR::zero().is_equal_to_float((-0f64).to_bits()));
}

#[test]
fn infinities_bound_every_number() {
    assert_eq!(MPFR::infinity().three_way_compare(&MPFR::infinity()), Comparison::Equal);
    assert_eq!(
        MPFR::negative_infinity().three_way_compare(&MPFR::negative_infinity()),
        Comparison::Equal
    );
    assert_eq!(MPFR::negative_infinity().three_way_compare(&MPFR::infinity()), Comparison::Less);
    assert_eq!(MPFR::infinity().three_way_compare(&MPFR::negative_infinity()), Comparison::Greater);
    assert!(MPFR::infinity() > of(f64::MAX));
    assert!(MPFR::negative_infinity() < of(f64::MIN));
    assert!(MPFR::zero() < MPFR::infinity());
    assert!(MPFR::zero() > MPFR::negative_infinity());
    assert!(MPFR::infinity().is_equal_to_float(f64::INFINITY.to_bits()));
    assert!(!MPFR::infinity().is_equal_to_float(f64::NEG_INFINITY.to_bits()));
    assert!(!MPFR::infinity().is_equal_to_int(i64::MAX));
}

#[test]
fn nan_is_unordered_with_everything() {
    let others = [
        MPFR::nan(),
        MPFR::infinity(),
        MPFR::negative_infinity(),
        MPFR::zero(),
        MPFR::negative_zero(),
        MPFR::from_int(3),
        of(-0.75),
    ];
    for h in others.iter() {
        assert_eq!(MPFR::nan().three_way_compare(h), Comparison::Unordered);
        assert_eq!(h.three_way_compare(&MPFR::nan()), Comparison::Unordered);
        assert_eq!(MPFR::nan().partial_cmp(h), None);
        assert_eq!(h.partial_cmp(&MPFR::nan()), None);
        assert!(!(MPFR::nan() == *h));
        assert!(!(MPFR::nan() != *h));
        assert!(!(MPFR::nan() < *h));
        assert!(!(MPFR::nan() <= *h));
        assert!(!(MPFR::nan() > *h));
        assert!(!(MPFR::nan() >= *h));
        assert!(!(*h == MPFR::nan()));
        assert!(!(*h != MPFR::nan()));
        assert!(!(*h < MPFR::nan()));
        assert!(!(*h >= MPFR::nan()));
    }
}

#[test]
fn nan_equals_no_scalar() {
    assert!(!MPFR::nan().is_equal_to_int(0));
    assert!(!MPFR::nan().is_equal_to_float(f64::NAN.to_bits()));
    assert!(!MPFR::from_int(1).is_equal_to_float(f64::NAN.to_bits()));
}

#[test]
fn partial_cmp_gives_the_order() {
    assert_eq!(MPFR::from_int(7).partial_cmp(&MPFR::from_int(8)), Some(Ordering::Less));
    assert_eq!(MPFR::from_int(7).partial_cmp(&MPFR::from_int(7)), Some(Ordering::Equal));
    assert_eq!(MPFR::from_int(7).partial_cmp(&MPFR::from_int(6)), Some(Ordering::Greater));
}

#[test]
fn scalar_equality_is_exact() {
    assert!(of(0.5).is_equal_to_float(0.5f64.to_bits()));
    assert!(!of(0.5).is_equal_to_int(0));
    assert!(!of(0.5).is_equal_to_int(1));
    assert!(!of(8.5).is_equal_to_int(8));
    assert!(!of(8.5).is_equal_to_int(9));
    assert!(MPFR::from_int(-8).is_equal_to_int(-8));
    assert!(!MPFR::from_int(-8).is_equal_to_int(8));
    assert!(!MPFR::from_int(8).is_equal_to_int(-8));
    assert!(!MPFR::from_int(8).is_equal_to_int(0));
    assert!(of(1152921504606846976.0).is_equal_to_int(1i64 << 60));
    assert!(!of(1152921504606846976.0).is_equal_to_int((1i64 << 60) + 1));
    assert!(MPFR::from_int(i64::MIN).is_equal_to_int(i64::MIN));
    assert!(!MPFR::from_int(i64::MAX).is_equal_to_int(i64::MAX));
    assert!(!of(18446744073709551616.0).is_equal_to_int(i64::MAX));
    assert!(!of(1e300).is_equal_to_int(i64::MAX));
    assert!(!of(1e-300).is_equal_to_int(0));
    assert!(MPFR::from_int(1).is_equal_to_int(1));
    assert!(of(9007199254740993.0).is_equal_to_int(9007199254740992));
    assert!(!MPFR::from_int(9007199254740992).is_equal_to_int(9007199254740993));
}
