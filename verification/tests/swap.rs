use bound_amm::bound::build_config;
use bound_amm::AmmError;
use bound_amm::BoundPool;
use bound_amm::Fees;

const FEE_QUOTE: u64 = 10_000_000; // 1%
const FEE_MEME: u64 = 5_000_000; // 0.5%

fn example_pool(fee_meme_percent: u64, fee_quote_percent: u64) -> BoundPool {
    let config = build_config(1_000_000_000, 9, 690_000_000, 310_000_000, 1, 3).unwrap();
    BoundPool::init(
        config,
        Fees {
            fee_meme_percent,
            fee_quote_percent,
        },
        [1; 32],
        [2; 32],
        [3; 32],
        [4; 32],
        [5; 32],
        [6; 32],
        0,
        0,
    )
}

#[test]
fn buy_swap_exact_amounts() {
    let pool = example_pool(FEE_MEME, FEE_QUOTE);
    let swap = pool.buy_meme_swap_amounts(101_010_102, 0).unwrap();
    assert_eq!(swap.admin_fee_in, 1_010_101);
    assert_eq!(swap.amount_in, 100_000_001);
    assert_eq!(swap.amount_out, 121_191_001);
    assert_eq!(swap.admin_fee_out, 609_000);
}

#[test]
fn buy_fee_conservation() {
    // Unclamped buy: input fee plus net input reassemble the gross input.
    let pool = example_pool(FEE_MEME, FEE_QUOTE);
    let gross: u64 = 101_010_102;
    let swap = pool.buy_meme_swap_amounts(gross, 0).unwrap();
    assert_eq!(swap.admin_fee_in + swap.amount_in, gross);
    // Output side: net output plus output fee reassemble the priced output.
    let gross_out = pool.compute_delta_m(0, swap.amount_in).unwrap();
    assert_eq!(swap.amount_out + swap.admin_fee_out, gross_out);
}

#[test]
fn buy_headroom_clamp_returns_full_reserve() {
    // The fee-adjusted input reaches the quote target: the whole remaining
    // curve-asset reserve comes out, without consulting the solver.
    let pool = example_pool(FEE_MEME, FEE_QUOTE);
    let swap = pool.buy_meme_swap_amounts(1_020_000_000, 0).unwrap();
    assert_eq!(swap.amount_in, 1_000_000_000);
    assert_eq!(swap.admin_fee_in, 10_200_000);
    assert_eq!(swap.amount_out + swap.admin_fee_out, 690_000_000);
    assert_eq!(swap.admin_fee_out, 3_450_000);
    assert_eq!(swap.amount_out, 686_550_000);
}

#[test]
fn buy_slippage_is_rejected() {
    let pool = example_pool(FEE_MEME, FEE_QUOTE);
    assert_eq!(
        pool.buy_meme_swap_amounts(101_010_102, 121_191_002),
        Err(AmmError::SlippageExceeded)
    );
    // The same trade passes at its exact output.
    assert!(pool.buy_meme_swap_amounts(101_010_102, 121_191_001).is_ok());
}

#[test]
fn sell_swap_exact_amounts_with_doubled_fees() {
    let mut pool = example_pool(FEE_MEME, FEE_QUOTE);
    let buy = pool.buy_meme_swap_amounts(101_010_102, 0).unwrap();
    pool.apply_buy(&buy);
    let sell = pool.sell_meme_swap_amounts(50_000_000, 0).unwrap();
    // Input-side fee is taken twice: 2 * 0.5% of 50M.
    assert_eq!(sell.admin_fee_in, 500_000);
    assert_eq!(sell.amount_in, 49_500_000);
    // Output-side fee is taken twice as well.
    assert_eq!(sell.amount_out, 40_976_020);
    assert_eq!(sell.admin_fee_out, 836_244);
    assert_eq!(sell.amount_in + sell.admin_fee_in, 50_000_000);
}

#[test]
fn apply_buy_updates_reserves_exactly() {
    let mut pool = example_pool(FEE_MEME, FEE_QUOTE);
    let swap = pool.buy_meme_swap_amounts(101_010_102, 0).unwrap();
    pool.apply_buy(&swap);
    assert_eq!(pool.quote_reserve.tokens, 100_000_001);
    assert_eq!(pool.meme_reserve.tokens, 690_000_000 - (121_191_001 + 609_000));
    assert_eq!(pool.admin_fees_quote, 1_010_101);
    assert_eq!(pool.admin_fees_meme, 609_000);
    assert!(!pool.locked);
}

#[test]
fn apply_sell_updates_reserves_exactly() {
    let mut pool = example_pool(FEE_MEME, FEE_QUOTE);
    let buy = pool.buy_meme_swap_amounts(101_010_102, 0).unwrap();
    pool.apply_buy(&buy);
    let sell = pool.sell_meme_swap_amounts(50_000_000, 0).unwrap();
    let meme_before = pool.meme_reserve.tokens;
    let quote_before = pool.quote_reserve.tokens;
    pool.apply_sell(&sell);
    assert_eq!(pool.meme_reserve.tokens, meme_before + sell.amount_in);
    assert_eq!(
        pool.quote_reserve.tokens,
        quote_before - (sell.amount_out + sell.admin_fee_out)
    );
    assert_eq!(pool.admin_fees_meme, 609_000 + sell.admin_fee_in);
    assert_eq!(pool.admin_fees_quote, 1_010_101 + sell.admin_fee_out);
    assert!(!pool.locked);
}

#[test]
fn buy_that_empties_reserve_locks_the_pool() {
    let mut pool = example_pool(FEE_MEME, FEE_QUOTE);
    assert!(pool.check_swap_allowed(1_020_000_000).is_ok());
    let swap = pool.buy_meme_swap_amounts(1_020_000_000, 0).unwrap();
    pool.apply_buy(&swap);
    assert_eq!(pool.meme_reserve.tokens, 0);
    assert!(pool.locked);
    // Any further swap attempt is rejected with the locked condition.
    assert_eq!(
        pool.check_swap_allowed(1_000),
        Err(AmmError::PoolIsLocked)
    );
}

#[test]
fn zero_amount_swap_is_rejected() {
    let pool = example_pool(FEE_MEME, FEE_QUOTE);
    assert_eq!(pool.check_swap_allowed(0), Err(AmmError::NoZeroTokens));
}

#[test]
fn swap_amounts_matches_both_directions() {
    let mut pool = example_pool(FEE_MEME, FEE_QUOTE);
    let buy = pool.swap_amounts(101_010_102, 0, true);
    assert_eq!(buy, pool.buy_meme_swap_amounts(101_010_102, 0).unwrap());
    pool.apply_buy(&buy);
    let sell = pool.swap_amounts(50_000_000, 0, false);
    assert_eq!(sell, pool.sell_meme_swap_amounts(50_000_000, 0).unwrap());
}

#[test]
fn zero_fee_round_trip_through_swaps() {
    // Fees set to zero: a buy of delta_s followed by a sell of the bought
    // amount recovers delta_s up to the curve's rounding.
    let mut pool = example_pool(0, 0);
    let buy = pool.buy_meme_swap_amounts(100_000_000, 0).unwrap();
    assert_eq!(buy.amount_in, 100_000_000);
    assert_eq!(buy.amount_out, 121_800_000);
    pool.apply_buy(&buy);
    let sell = pool.sell_meme_swap_amounts(buy.amount_out, 0).unwrap();
    assert!(sell.amount_out <= 100_000_000);
    assert!(100_000_000 - sell.amount_out <= 1);
}

#[test]
fn pool_initial_state() {
    let pool = example_pool(FEE_MEME, FEE_QUOTE);
    assert_eq!(pool.meme_reserve.tokens, 690_000_000);
    assert_eq!(pool.quote_reserve.tokens, 0);
    assert_eq!(pool.admin_fees_meme, 0);
    assert_eq!(pool.admin_fees_quote, 0);
    assert!(!pool.locked);
    assert_eq!(pool.meme_reserve.mint, [1; 32]);
    assert_eq!(pool.quote_reserve.vault, [4; 32]);
    assert_eq!(pool.balances(), (690_000_000, 0));
}

#[test]
fn account_space_is_fixed() {
    assert_eq!(BoundPool::space(), 513);
}

#[test]
fn fee_amounts_round_down() {
    let fees = Fees {
        fee_meme_percent: FEE_MEME,
        fee_quote_percent: FEE_QUOTE,
    };
    assert_eq!(fees.get_fee_quote_amount(101_010_102), Some(1_010_101));
    assert_eq!(fees.get_fee_meme_amount(121_800_001), Some(609_000));
    assert_eq!(fees.get_fee_quote_amount(99), Some(0));
    let zero = Fees {
        fee_meme_percent: 0,
        fee_quote_percent: 0,
    };
    assert_eq!(zero.get_fee_quote_amount(u64::MAX), Some(0));
}

#[test]
fn sell_headroom_clamp_returns_full_quote_reserve() {
    // A sell whose fee-adjusted input reaches the curve-asset headroom
    // short-circuits to the whole quote reserve.
    let mut pool = example_pool(FEE_MEME, FEE_QUOTE);
    let buy = pool.buy_meme_swap_amounts(101_010_102, 0).unwrap();
    pool.apply_buy(&buy);
    let sell = pool.sell_meme_swap_amounts(200_000_000, 0).unwrap();
    assert_eq!(sell.admin_fee_in, 2_000_000);
    // Clamped to gamma_m minus the curve-asset reserve.
    assert_eq!(sell.amount_in, 121_800_001);
    assert_eq!(sell.amount_out + sell.admin_fee_out, 100_000_001);
    assert_eq!(sell.admin_fee_out, 2_000_000);
    let quote_before = pool.quote_reserve.tokens;
    pool.apply_sell(&sell);
    assert_eq!(quote_before, 100_000_001);
    assert_eq!(pool.quote_reserve.tokens, 0);
}

#[test]
fn clamped_buy_keeps_fee_within_gross_input() {
    // Even when the input clamps to the headroom, fee plus net input
    // never exceed what the trader offered.
    let pool = example_pool(FEE_MEME, FEE_QUOTE);
    let gross: u64 = 1_020_000_000;
    let swap = pool.buy_meme_swap_amounts(gross, 0).unwrap();
    assert!(swap.admin_fee_in + swap.amount_in <= gross);
    assert_eq!(swap.admin_fee_in + swap.amount_in, 1_010_200_000);
}
