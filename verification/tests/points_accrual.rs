use bound_amm::points::get_swap_points;
use bound_amm::points::mul_div_floor;
use bound_amm::points::points_payout;
use bound_amm::PointsEpoch;

fn epoch_one_per_thousand() -> PointsEpoch {
    PointsEpoch {
        points_per_sol_num: 1,
        points_per_sol_denom: 1_000,
    }
}

#[test]
fn points_rate_example() {
    // rate 1/1000 on a volume of 100_000 earns 100 points.
    let ep = epoch_one_per_thousand();
    assert_eq!(get_swap_points(100_000, &ep), 100);
}

#[test]
fn points_round_down() {
    let ep = epoch_one_per_thousand();
    assert_eq!(get_swap_points(1_999, &ep), 1);
    assert_eq!(get_swap_points(999, &ep), 0);
}

#[test]
fn points_clamp_to_available_balance_starves_referral() {
    // Only 50 points are left: the payout clamps to 50 and nothing
    // remains for the referral share.
    let ep = epoch_one_per_thousand();
    assert_eq!(points_payout(100_000, &ep, 50), (50, 0));
}

#[test]
fn points_full_payout_with_referral_share() {
    // 100 points owed, plenty available: 25% referral share on top.
    let ep = epoch_one_per_thousand();
    assert_eq!(points_payout(100_000, &ep, 1_000_000_000), (100, 25));
}

#[test]
fn referral_share_clamps_to_remaining_balance() {
    let ep = epoch_one_per_thousand();
    // 110 available: 100 paid, 10 left for the 25-point referral share.
    assert_eq!(points_payout(100_000, &ep, 110), (100, 10));
    // 120 available: the 25-point share clamps to the 20 left.
    assert_eq!(points_payout(100_000, &ep, 120), (100, 20));
}

#[test]
fn zero_volume_earns_nothing() {
    let ep = epoch_one_per_thousand();
    assert_eq!(points_payout(0, &ep, 1_000), (0, 0));
}

#[test]
fn mul_div_floor_edges() {
    assert_eq!(mul_div_floor(10, 3, 0), None);
    assert_eq!(mul_div_floor(10, 3, 4), Some(7));
    assert_eq!(mul_div_floor(u64::MAX, u64::MAX, 1), None);
    assert_eq!(mul_div_floor(u64::MAX, u64::MAX, u64::MAX), Some(u64::MAX));
}
