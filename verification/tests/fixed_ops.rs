use stable_fluids::fixed::{fadd, fdiv, fhalf, fmul, fneg, fsub, FX_HALF, FX_ONE, FX_SCALE};

#[test]
fn add_and_sub_exact() {
    assert_eq!(fadd(1_500_000, 2_250_000), 3_750_000);
    assert_eq!(fsub(1_500_000, 2_250_000), -750_000);
    assert_eq!(fadd(-1, 1), 0);
}

#[test]
fn add_saturates() {
    assert_eq!(fadd(i64::MAX, 1), i64::MAX);
    assert_eq!(fadd(i64::MIN, -1), i64::MIN);
    assert_eq!(fsub(i64::MIN, 1), i64::MIN);
}

#[test]
fn neg_saturates_at_min() {
    assert_eq!(fneg(5), -5);
    assert_eq!(fneg(i64::MIN), i64::MAX);
}

#[test]
fn mul_rescales_and_truncates_toward_zero() {
    // 1.5 * 2.0 == 3.0
    assert_eq!(fmul(1_500_000, 2_000_000), 3_000_000);
    // -1.5 * 2.0 == -3.0
    assert_eq!(fmul(-1_500_000, 2_000_000), -3_000_000);
    // the sub-unit product 1e-6 * 1e-6 truncates to zero
    assert_eq!(fmul(1, 1), 0);
    // truncation is toward zero on negatives too
    assert_eq!(fmul(-1, 1), 0);
    assert_eq!(fmul(FX_ONE, 123_456), 123_456);
}

#[test]
fn mul_saturates() {
    assert_eq!(fmul(i64::MAX, 2_000_000), i64::MAX);
    assert_eq!(fmul(i64::MAX, -2_000_000), i64::MIN);
}

#[test]
fn div_prescales_and_truncates() {
    // 1 / 3 == 0.333333, truncated
    assert_eq!(fdiv(1_000_000, 3_000_000), 333_333);
    assert_eq!(fdiv(-1_000_000, 3_000_000), -333_333);
    assert_eq!(fdiv(2_500_000, FX_ONE), 2_500_000);
    assert_eq!(fdiv(FX_ONE, FX_SCALE * 2), FX_HALF);
}

#[test]
fn half_truncates_toward_zero() {
    assert_eq!(fhalf(7), 3);
    assert_eq!(fhalf(-7), -3);
    assert_eq!(fhalf(1_000_000), 500_000);
}
