use raytrace_rs::scalar::{Scalar, MAX_RAW, ONE_RAW};

fn fx(v: f64) -> Scalar {
    Scalar::from_raw((v * 1e9).round() as i64)
}

#[test]
fn one_is_a_billion_raw_units() {
    assert_eq!(Scalar::one().raw, 1_000_000_000);
    assert_eq!(ONE_RAW, 1_000_000_000);
    assert_eq!(Scalar::zero().raw, 0);
    assert_eq!(Scalar::from_int(3).raw, 3_000_000_000);
    assert_eq!(Scalar::from_int(-3).raw, -3_000_000_000);
}

#[test]
fn from_ratio_is_exact_for_decimals() {
    assert_eq!(Scalar::from_ratio(47, 100).raw, 470_000_000);
    assert_eq!(Scalar::from_ratio(-1, 4).raw, -250_000_000);
    assert_eq!(Scalar::from_ratio(1, 3).raw, 333_333_333);
    assert_eq!(Scalar::from_ratio(-1, 3).raw, -333_333_333);
}

#[test]
fn sums_and_differences() {
    assert_eq!((fx(1.5) + fx(2.25)).raw, 3_750_000_000);
    assert_eq!((fx(1.5) - fx(2.25)).raw, -750_000_000);
    assert_eq!((-fx(1.5)).raw, -1_500_000_000);
    assert_eq!(fx(-1.5).abs().raw, 1_500_000_000);
    assert_eq!(fx(1.5).abs().raw, 1_500_000_000);
}

#[test]
fn sums_stop_at_the_bounds() {
    let max = Scalar::from_raw(MAX_RAW);
    let min = Scalar::from_raw(-MAX_RAW);
    assert_eq!((max + Scalar::one()).raw, MAX_RAW);
    assert_eq!((min - Scalar::one()).raw, -MAX_RAW);
    assert_eq!((max * fx(2.0)).raw, MAX_RAW);
    assert_eq!((max * fx(-2.0)).raw, -MAX_RAW);
    assert_eq!((-Scalar::from_raw(i64::MIN)).raw, MAX_RAW);
    assert_eq!(Scalar::from_raw(i64::MIN).abs().raw, MAX_RAW);
    assert_eq!(Scalar::from_int(i64::MAX).raw, MAX_RAW);
    assert_eq!(Scalar::from_int(i64::MIN).raw, -MAX_RAW);
}

#[test]
fn products_round_toward_zero() {
    assert_eq!((fx(1.5) * fx(2.0)).raw, 3_000_000_000);
    assert_eq!((fx(-1.5) * fx(2.0)).raw, -3_000_000_000);
    // 0.000000001 * 0.5 is half a raw unit: it rounds to zero from both sides
    assert_eq!((Scalar::from_raw(1) * fx(0.5)).raw, 0);
    assert_eq!((Scalar::from_raw(-1) * fx(0.5)).raw, 0);
    assert_eq!((Scalar::from_raw(3) * fx(0.5)).raw, 1);
    assert_eq!((Scalar::from_raw(-3) * fx(0.5)).raw, -1);
}

#[test]
fn quotients_round_toward_zero() {
    assert_eq!((fx(1.0) / fx(3.0)).raw, 333_333_333);
    assert_eq!((fx(-1.0) / fx(3.0)).raw, -333_333_333);
    assert_eq!((fx(1.0) / fx(-3.0)).raw, -333_333_333);
    assert_eq!((fx(-1.0) / fx(-3.0)).raw, 333_333_333);
    assert_eq!((fx(7.0) / fx(2.0)).raw, 3_500_000_000);
}

#[test]
fn division_by_zero_stops_at_the_bound_of_the_numerator() {
    assert_eq!((fx(1.0) / Scalar::zero()).raw, MAX_RAW);
    assert_eq!((fx(-1.0) / Scalar::zero()).raw, -MAX_RAW);
    assert_eq!((Scalar::zero() / Scalar::zero()).raw, 0);
}

#[test]
fn square_roots_round_down() {
    assert_eq!(fx(4.0).sqrt().raw, 2_000_000_000);
    assert_eq!(fx(0.25).sqrt().raw, 500_000_000);
    assert_eq!(fx(2.0).sqrt().raw, 1_414_213_562);
    assert_eq!(fx(14.0).sqrt().raw, 3_741_657_386);
    assert_eq!(Scalar::zero().sqrt().raw, 0);
    assert_eq!(fx(-4.0).sqrt().raw, 0);
    let r = Scalar::from_raw(MAX_RAW).sqrt().raw as i128;
    let n = MAX_RAW as i128 * 1_000_000_000;
    assert!(r * r <= n && n < (r + 1) * (r + 1));
}

#[test]
fn whole_powers() {
    assert_eq!(fx(2.0).powi(0).raw, 1_000_000_000);
    assert_eq!(fx(2.0).powi(1).raw, 2_000_000_000);
    assert_eq!(fx(2.0).powi(10).raw, 1_024_000_000_000);
    assert_eq!(fx(-2.0).powi(3).raw, -8_000_000_000);
    assert_eq!(fx(0.5).powi(2).raw, 250_000_000);
    assert_eq!(Scalar::one().powi(200).raw, 1_000_000_000);
    // 0.7071^200 is far below a billionth
    assert_eq!(fx(0.7071).powi(200).raw, 0);
    assert_eq!(fx(0.5).powi(u32::MAX).raw, 0);
    assert_eq!(Scalar::zero().powi(0).raw, 1_000_000_000);
    assert_eq!(fx(10.0).powi(30).raw, MAX_RAW);
}

#[test]
fn smaller_and_larger() {
    assert_eq!(fx(1.0).min(fx(2.0)), fx(1.0));
    assert_eq!(fx(1.0).max(fx(2.0)), fx(2.0));
    assert_eq!(fx(-1.0).min(fx(-2.0)), fx(-2.0));
    assert_eq!(fx(3.0).max(fx(3.0)), fx(3.0));
}
