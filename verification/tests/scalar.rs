use lynchpin::scalar::{max_of, sum_of, TermScalar};

fn fin(v: i64) -> TermScalar {
    TermScalar::Finite(v)
}

#[test]
fn infinity_absorbs_finite_values() {
    assert_eq!(TermScalar::infinity().add(fin(5)), TermScalar::Infinity);
    assert_eq!(fin(5).add(TermScalar::infinity()), TermScalar::Infinity);
    assert_eq!(TermScalar::infinity().sub(fin(5)), TermScalar::Infinity);
    assert_eq!(fin(5).sub(TermScalar::infinity()), TermScalar::NegInfinity);
}

#[test]
fn min_max_with_infinity() {
    assert_eq!(fin(5).min(TermScalar::infinity()), fin(5));
    assert_eq!(fin(5).max(TermScalar::infinity()), TermScalar::Infinity);
    assert_eq!(fin(5).max(TermScalar::neg_infinity()), fin(5));
    assert_eq!(fin(5).min(TermScalar::neg_infinity()), TermScalar::NegInfinity);
}

#[test]
fn undefined_results_and_propagation() {
    assert_eq!(TermScalar::infinity().sub(TermScalar::infinity()), TermScalar::Undefined);
    assert_eq!(TermScalar::infinity().mul(fin(0)), TermScalar::Undefined);
    assert_eq!(fin(0).div(fin(0)), TermScalar::Undefined);
    assert_eq!(fin(7).rem(fin(0)), TermScalar::Undefined);
    assert_eq!(TermScalar::Undefined.add(fin(1)), TermScalar::Undefined);
    assert_eq!(TermScalar::Undefined.max(fin(3)), fin(3));
    assert_eq!(fin(3).min(TermScalar::Undefined), fin(3));
}

#[test]
fn whole_number_arithmetic() {
    assert_eq!(fin(3).add(fin(4)), fin(7));
    assert_eq!(fin(3).sub(fin(4)), fin(-1));
    assert_eq!(fin(3).mul(fin(-4)), fin(-12));
    assert_eq!(fin(7).div(fin(2)), fin(3));
    assert_eq!(fin(-7).div(fin(2)), fin(-3));
    assert_eq!(fin(-7).rem(fin(2)), fin(-1));
    assert_eq!(fin(5).div(fin(0)), TermScalar::Infinity);
    assert_eq!(fin(-5).div(fin(0)), TermScalar::NegInfinity);
    assert_eq!(fin(5).div(TermScalar::infinity()), fin(0));
    assert_eq!(fin(5).rem(TermScalar::infinity()), fin(5));
    assert_eq!(fin(4).neg(), fin(-4));
    assert_eq!(fin(-4).abs(), fin(4));
    assert_eq!(TermScalar::neg_infinity().abs(), TermScalar::Infinity);
}

#[test]
fn saturation_at_the_bounds() {
    assert_eq!(fin(i64::MAX).add(fin(1)), fin(i64::MAX));
    assert_eq!(fin(i64::MIN).sub(fin(1)), fin(i64::MIN));
    assert_eq!(fin(i64::MAX).mul(fin(2)), fin(i64::MAX));
    assert_eq!(fin(i64::MIN).neg(), fin(i64::MAX));
}

#[test]
fn conversions_and_predicates() {
    assert_eq!(TermScalar::new(42), fin(42));
    assert_eq!(fin(42).get(), 42);
    assert_eq!(TermScalar::infinity().get(), i32::MAX);
    assert_eq!(TermScalar::neg_infinity().get(), i32::MIN);
    assert_eq!(TermScalar::Undefined.get(), 0);
    assert_eq!(fin(1i64 << 40).get(), i32::MAX);
    assert!(fin(3).is_finite());
    assert!(!TermScalar::infinity().is_finite());
    assert!(fin(0).is_zero());
    assert!(fin(2).is_positive());
    assert!(TermScalar::neg_infinity().is_negative());
    assert_eq!(fin(9).round(), fin(9));
    assert_eq!(fin(9).ceil(), fin(9));
    assert_eq!(fin(9).floor(), fin(9));
    assert_eq!(TermScalar::zero(), fin(0));
    assert_eq!(TermScalar::one(), fin(1));
}

#[test]
fn comparisons_order_numbers() {
    assert!(fin(1).le(fin(1)));
    assert!(fin(1).lt(fin(2)));
    assert!(TermScalar::neg_infinity().lt(fin(i64::MIN)));
    assert!(fin(i64::MAX).lt(TermScalar::infinity()));
    assert!(fin(3).ge(fin(2)));
    assert!(TermScalar::infinity().gt(fin(0)));
    assert_eq!(fin(7).clamp(fin(0), fin(5)), fin(5));
    assert_eq!(fin(-7).clamp(fin(0), fin(5)), fin(0));
}

#[test]
fn max_and_sum_of_vectors() {
    assert_eq!(max_of(&vec![fin(3), fin(9), fin(1)]), fin(9));
    assert_eq!(sum_of(&vec![fin(3), fin(9), fin(1)]), fin(13));
    assert_eq!(sum_of(&vec![]), fin(0));
    assert_eq!(sum_of(&vec![fin(1), TermScalar::infinity()]), TermScalar::Infinity);
}

#[test]
fn i32_conversions_round_trip() {
    for n in [0, 1, -1, 42, i32::MAX, i32::MIN] {
        assert_eq!(TermScalar::from(n).get(), n);
        assert_eq!(i32::from(TermScalar::from(n)), n);
        assert_eq!(TermScalar::new(n).get(), n);
    }
    assert_eq!(i32::from(TermScalar::Infinity), i32::MAX);
    assert_eq!(i32::from(TermScalar::NegInfinity), i32::MIN);
    let s: TermScalar = 7.into();
    assert_eq!(s, TermScalar::Finite(7));
}
