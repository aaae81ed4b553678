use bound_amm::bound::build_config;
use bound_amm::AmmError;
use bound_amm::BoundPool;
use bound_amm::Config;
use bound_amm::Decimals;
use bound_amm::Fees;

fn example_pool(fee_meme_percent: u64, fee_quote_percent: u64) -> BoundPool {
    let config = build_config(1_000_000_000, 9, 690_000_000, 310_000_000, 1, 3).unwrap();
    BoundPool::init(
        config,
        Fees {
            fee_meme_percent,
            fee_quote_percent,
        },
        [1; 32],
        [2; 32],
        [3; 32],
        [4; 32],
        [5; 32],
        [6; 32],
        0,
        0,
    )
}

#[test]
fn build_config_example_values() {
    let config = build_config(1_000_000_000, 9, 690_000_000, 310_000_000, 1, 3).unwrap();
    assert_eq!(config.alpha_abs, 11_733_333_340_000);
    assert_eq!(config.beta, 12_766_666_670_000);
    assert_eq!(config.decimals.alpha, 10_000);
    assert_eq!(config.decimals.beta, 10_000);
    assert_eq!(config.decimals.quote, 1_000_000_000);
    assert_eq!(config.gamma_s, 1_000_000_000);
    assert_eq!(config.gamma_m, 690_000_000);
    assert_eq!(config.omega_m, 310_000_000);
}

#[test]
fn forward_solver_exact_values() {
    let pool = example_pool(0, 0);
    assert_eq!(pool.compute_delta_m(0, 100_000_000), Ok(121_800_000));
    assert_eq!(pool.compute_delta_m(0, 200_000_000), Ok(231_866_667));
    assert_eq!(pool.compute_delta_m(100_000_000, 200_000_000), Ok(110_066_666));
}

#[test]
fn forward_solver_full_range_releases_whole_curve_supply() {
    let pool = example_pool(0, 0);
    assert_eq!(pool.compute_delta_m(0, 1_000_000_000), Ok(690_000_000));
}

#[test]
fn forward_solver_is_monotone_in_upper_level() {
    let pool = example_pool(0, 0);
    let mut previous: u64 = 0;
    for step in 1..=10u64 {
        let out = pool.compute_delta_m(0, step * 100_000_000).unwrap();
        assert!(out > previous);
        previous = out;
    }
}

#[test]
fn inverse_solver_exact_value() {
    let pool = example_pool(0, 0);
    assert_eq!(pool.compute_delta_s(100_000_000, 121_800_000), Ok(100_000_000));
}

#[test]
fn inverse_solver_is_monotone_in_asset_delta() {
    let pool = example_pool(0, 0);
    assert_eq!(pool.compute_delta_s(100_000_000, 60_900_000), Ok(51_203_462));
    assert_eq!(pool.compute_delta_s(100_000_000, 121_799_000), Ok(99_999_217));
    let mut previous: u64 = 0;
    for dm in [1_000_000u64, 30_000_000, 60_900_000, 100_000_000, 121_800_000] {
        let out = pool.compute_delta_s(100_000_000, dm).unwrap();
        assert!(out > previous);
        previous = out;
    }
}

#[test]
fn round_trip_recovers_quote_amount() {
    // With zero fees, a buy priced forward and sold back inverts exactly
    // here; the curve's rounding allows at most one base unit of drift.
    let pool = example_pool(0, 0);
    let delta_s: u64 = 100_000_000;
    let delta_m = pool.compute_delta_m(0, delta_s).unwrap();
    let recovered = pool.compute_delta_s(delta_s, delta_m).unwrap();
    assert!(recovered <= delta_s);
    assert!(delta_s - recovered <= 1);
    assert_eq!(recovered, 100_000_000);
}

#[test]
fn forward_solver_overflow_is_reported() {
    // A slope and intercept at the top of the 128-bit range starve both
    // strategies of working width.
    let config = Config {
        alpha_abs: u128::MAX / 2,
        beta: u128::MAX / 2,
        price_factor_num: 1,
        price_factor_denom: 1,
        gamma_s: 1_000_000_000,
        gamma_m: 690_000_000,
        omega_m: 310_000_000,
        decimals: Decimals {
            alpha: 100_000_000,
            beta: 100_000_000,
            quote: 1_000_000_000,
        },
    };
    let pool = BoundPool {
        config,
        ..example_pool(0, 0)
    };
    assert_eq!(pool.compute_delta_m(0, 100), Err(AmmError::MathOverflow));
}

#[test]
fn inverse_solver_overflow_is_reported() {
    // A huge slope against a tiny intercept drives the linear term
    // negative, which the pipeline reports as overflow.
    let config = Config {
        alpha_abs: 1_000_000_000_000_000_000_000_000_000_000,
        beta: 1,
        price_factor_num: 1,
        price_factor_denom: 1,
        gamma_s: 1_000_000_000,
        gamma_m: 690_000_000,
        omega_m: 310_000_000,
        decimals: Decimals {
            alpha: 1,
            beta: 1,
            quote: 1_000_000_000,
        },
    };
    let pool = BoundPool {
        config,
        ..example_pool(0, 0)
    };
    assert_eq!(
        pool.compute_delta_s(1_000_000_000, 1_000_000),
        Err(AmmError::MathOverflow)
    );
}
