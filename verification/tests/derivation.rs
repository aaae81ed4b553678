use bound_amm::bound::check_intercept;
use bound_amm::bound::check_slope;
use bound_amm::bound::compute_alpha_abs;
use bound_amm::bound::compute_beta;
use bound_amm::bound::compute_decimals;
use bound_amm::bound::compute_scale;
use bound_amm::AmmError;

const GAMMA_M: u128 = 690_000_000;
const OMEGA_M: u128 = 310_000_000;

#[test]
fn slope_check_accepts_negative_slope() {
    assert!(check_slope(GAMMA_M, OMEGA_M, 1, 3).is_ok());
}

#[test]
fn slope_check_rejects_flat_or_positive_slope() {
    // 310M * 3 / 1 = 930M >= 690M
    assert_eq!(
        check_slope(GAMMA_M, OMEGA_M, 3, 1),
        Err(AmmError::BondingCurveMustBeNegativelySloped)
    );
    // Exactly equal is rejected too.
    assert_eq!(
        check_slope(OMEGA_M, OMEGA_M, 1, 1),
        Err(AmmError::BondingCurveMustBeNegativelySloped)
    );
}

#[test]
fn intercept_check_boundaries() {
    assert!(check_intercept(GAMMA_M, OMEGA_M, 1, 3).is_ok());
    // 2 * 155M == 310M, not strictly greater.
    assert_eq!(
        check_intercept(155_000_000, OMEGA_M, 1, 1),
        Err(AmmError::BondingCurveInterceptMustBePositive)
    );
}

#[test]
fn alpha_derivation_example_values() {
    // gamma_s = 1 SOL at nine decimals, price factor 1/3.
    let r = compute_alpha_abs(1_000_000_000, 1_000_000_000, GAMMA_M, OMEGA_M, 1, 3);
    assert_eq!(r, Ok((11_733_333_340_000, 10_000)));
}

#[test]
fn beta_derivation_example_values() {
    let r = compute_beta(1_000_000_000, 1_000_000_000, GAMMA_M, OMEGA_M, 1, 3, 10_000);
    assert_eq!(r, Ok(12_766_666_670_000));
}

#[test]
fn derivation_precision_is_from_the_table() {
    let (alpha, precision) =
        compute_alpha_abs(1_000_000_000, 1_000_000_000, GAMMA_M, OMEGA_M, 1, 3).unwrap();
    assert!(alpha > 0);
    let allowed = [
        1u128,
        10,
        100,
        1_000,
        10_000,
        100_000,
        1_000_000,
        10_000_000,
        100_000_000,
    ];
    assert!(allowed.contains(&precision));
}

#[test]
fn derivation_rejects_scale_too_low() {
    // A small magnitude gap between numerator and denominator.
    let r = compute_alpha_abs(1_000_000, 1_000, GAMMA_M, OMEGA_M, 1, 3);
    assert_eq!(r, Err(AmmError::EScaleTooLow));
}

#[test]
fn derivation_rejects_target_above_relative_limit() {
    // With no decimal scaling the numerator falls below the denominator.
    let r = compute_alpha_abs(1_000_000, 1, GAMMA_M, OMEGA_M, 1, 3);
    assert_eq!(r, Err(AmmError::EGammaSAboveRelativeLimit));
}

#[test]
fn derivation_rejects_bad_slope() {
    let r = compute_alpha_abs(1_000_000_000, 1_000_000_000, GAMMA_M, OMEGA_M, 3, 1);
    assert_eq!(r, Err(AmmError::BondingCurveMustBeNegativelySloped));
}

#[test]
fn scale_counts_decimal_digits() {
    assert_eq!(compute_scale(0), 1);
    assert_eq!(compute_scale(9), 1);
    assert_eq!(compute_scale(10), 2);
    assert_eq!(compute_scale(999), 3);
    assert_eq!(compute_scale(1_000_000_000_000_000_000), 19);
    assert_eq!(compute_scale(u128::MAX), 39);
}

#[test]
fn decimals_table_values() {
    assert_eq!(compute_decimals(0), Err(AmmError::EScaleTooLow));
    assert_eq!(compute_decimals(4), Err(AmmError::EScaleTooLow));
    assert_eq!(compute_decimals(5), Ok(100_000_000));
    assert_eq!(compute_decimals(6), Ok(10_000_000));
    assert_eq!(compute_decimals(7), Ok(1_000_000));
    assert_eq!(compute_decimals(8), Ok(100_000));
    assert_eq!(compute_decimals(9), Ok(10_000));
    assert_eq!(compute_decimals(10), Ok(1_000));
    assert_eq!(compute_decimals(11), Ok(100));
    assert_eq!(compute_decimals(12), Ok(10));
    assert_eq!(compute_decimals(13), Ok(1));
    assert_eq!(compute_decimals(40), Ok(1));
}
