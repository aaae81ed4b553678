//! Reward-points accrual: quote volume converted to points through a rate
//! ratio, clamped to the reward pool's available balance, with a 25%
//! referral share clamped to what remains after the primary payout.

use vstd::prelude::*;

use crate::math::min_int;

verus! {

/// The reward rate in force, as a points-per-quote-unit ratio. Read-only
/// input to the engine.
#[derive(Clone, Copy, Debug, PartialEq, Eq, Structural)]
pub struct PointsEpoch {
    /// Numerator of the rate.
    pub points_per_sol_num: u64,
    /// Denominator of the rate.
    pub points_per_sol_denom: u64,
}

/// `floor(a * num / denom)`, absent for a zero denominator or a quotient
/// beyond 64 bits.
pub open spec fn mul_div_floor_spec(a: u64, num: u64, denom: u64) -> Option<int> {
    if denom == 0 {
        None
    } else if (a * num) / (denom as int) > u64::MAX {
        None
    } else {
        Some((a * num) / (denom as int))
    }
}

/// Multiplies before dividing, rounding down, without intermediate
/// overflow.
pub fn mul_div_floor(a: u64, num: u64, denom: u64) -> (r: Option<u64>)
    ensures
        (match r {
            Some(v) => mul_div_floor_spec(a, num, denom) == Some(v as int),
            None => mul_div_floor_spec(a, num, denom) is None,
        }),
{
    if denom == 0 {
        return None;
    }
    proof {
        assert(a * num <= u64::MAX * (u64::MAX as int)) by (nonlinear_arith)
            requires
                0 <= a <= u64::MAX,
                0 <= num <= u64::MAX,
        ;
    }
    let q = (a as u128) * (num as u128) / (denom as u128);
    if q <= u64::MAX as u128 {
        Some(q as u64)
    } else {
        None
    }
}

/// The points owed for a quote volume under the given rate.
pub open spec fn swap_points_spec(buy_amount: u64, ep: PointsEpoch) -> Option<int> {
    mul_div_floor_spec(buy_amount, ep.points_per_sol_num, ep.points_per_sol_denom)
}

/// Points paid out for a swap of `buy_amount`: the rate share of the
/// volume, clamped to the available balance.
pub open spec fn clamped_points_spec(buy_amount: u64, ep: PointsEpoch, available: u64) -> int {
    min_int(available as int, swap_points_spec(buy_amount, ep)->Some_0)
}

/// Referral share: 25% of the primary payout, rounded down, clamped to
/// the balance left after the primary payout; nothing when no points were
/// paid at all.
pub open spec fn referral_points_spec(buy_amount: u64, ep: PointsEpoch, available: u64) -> int {
    let c = clamped_points_spec(buy_amount, ep, available);
    if c == 0 {
        0
    } else {
        let rest = if available > c {
            available - c
        } else {
            0
        };
        min_int(rest, (c * 25_000) / 100_000)
    }
}

/// Converts a swap's quote volume into reward points under the epoch's
/// rate; the inputs on which the conversion has no defined result (a zero
/// denominator, a quotient beyond 64 bits) are excluded.
pub fn get_swap_points(buy_amount: u64, points_epoch: &PointsEpoch) -> (r: u64)
    requires
        swap_points_spec(buy_amount, *points_epoch) is Some,
    ensures
        swap_points_spec(buy_amount, *points_epoch) == Some(r as int),
{
    mul_div_floor(
        buy_amount,
        points_epoch.points_per_sol_num,
        points_epoch.points_per_sol_denom,
    ).unwrap()
}

/// The full reward settlement for one swap: primary payout and referral
/// share, both clamped to what the reward pool can still cover. A swap
/// that earns no points pays no referral share either.
pub fn points_payout(buy_amount: u64, points_epoch: &PointsEpoch, available_points: u64) -> (r: (
    u64,
    u64,
))
    requires
        swap_points_spec(buy_amount, *points_epoch) is Some,
    ensures
        r.0 == clamped_points_spec(buy_amount, *points_epoch, available_points),
        r.1 == referral_points_spec(buy_amount, *points_epoch, available_points),
{
    let points = get_swap_points(buy_amount, points_epoch);
    let clamped_points = if available_points < points {
        available_points
    } else {
        points
    };
    if clamped_points == 0 {
        return (0, 0);
    }
    let rest = if available_points > clamped_points {
        available_points - clamped_points
    } else {
        0
    };
    proof {
        let c = clamped_points as int;
        assert(c * 25_000 <= c * 100_000) by (nonlinear_arith)
            requires
                c >= 0,
        ;
        assert(c * 100_000 / 100_000 == c) by (nonlinear_arith)
            requires
                c >= 0,
        ;
        vstd::arithmetic::div_mod::lemma_div_is_ordered(c * 25_000, c * 100_000, 100_000);
        assert(c * 25_000 >= 0) by (nonlinear_arith)
            requires
                c >= 0,
        ;
        vstd::arithmetic::div_mod::lemma_div_pos_is_pos(c * 25_000, 100_000);
    }
    let referrer_points = mul_div_floor(clamped_points, 25_000, 100_000).unwrap();
    let clamped_referrer_points = if rest < referrer_points {
        rest
    } else {
        referrer_points
    };
    (clamped_points, clamped_referrer_points)
}

} // verus!
