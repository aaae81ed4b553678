//! The bonding-curve pool: its data model, the derivation of the curve
//! constants at creation, the forward and inverse curve-integral solvers,
//! and the swap orchestration with its fee and reserve bookkeeping.
//!
//! The price of the curve asset is a negatively sloped linear function of
//! the quote amount raised so far; its two constants are the slope
//! magnitude `alpha_abs` and the intercept `beta`, each carried at a fixed
//! decimal precision chosen at creation.

use vstd::prelude::*;

use crate::err::AmmError;
use crate::fees::fee_amount_spec;
use crate::fees::lemma_double_fee_le_amount;
use crate::fees::lemma_fee_le_amount;
use crate::fees::Fees;
use crate::math::checked_prod;
use crate::math::digits;
use crate::math::is_sqrt;
use crate::math::lemma_digits_bounds;
use crate::math::lemma_digits_ordered;
use crate::math::lemma_pow10_adds;
use crate::math::lemma_pow10_increases;
use crate::math::lemma_pow10_pos;
use crate::math::lemma_sqrt_floor;
use crate::math::lemma_sqrt_ordered;
use crate::math::lemma_sqrt_unique;
use crate::math::lemma_u128_truncate;
use crate::math::min_int;
use crate::math::mul_div_spec;
use crate::math::multiply_divide;
use crate::math::opt_wide_val;
use crate::math::pow10;
use crate::math::pow10_u128;
use crate::math::sqrt_floor;
use crate::math::wide_vals;
use crate::wide::lemma_wide_value_bounds;
use crate::wide::pow128;
use crate::wide::pow256;
use crate::wide::wide_as_u128;
use crate::wide::wide_checked_add;
use crate::wide::wide_checked_div;
use crate::wide::wide_checked_mul;
use crate::wide::wide_checked_sub;
use crate::wide::wide_fits_u128;
use crate::wide::wide_from_u128;
use crate::wide::wide_sqrt;
use crate::wide::Wide;

verus! {

/// Number of base units in one whole quote token: the quote asset carries
/// nine decimal places, and all curve arithmetic is scaled by this factor.
pub const DECIMALS_S: u128 = 1_000_000_000;

/// A quantity of one asset held by the pool, together with the asset and
/// custody identities the ledger layer needs to move it.
#[derive(Clone, Copy, Debug)]
pub struct Reserve {
    /// Amount currently held.
    pub tokens: u64,
    /// Identity of the asset.
    pub mint: [u8; 32],
    /// Identity of the custody account.
    pub vault: [u8; 32],
}

/// The three fixed-point scale factors chosen at pool creation.
#[derive(Clone, Copy, Debug, PartialEq, Eq, Structural)]
pub struct Decimals {
    /// Precision of the slope constant.
    pub alpha: u128,
    /// Precision of the intercept constant.
    pub beta: u128,
    /// Base units per whole quote token.
    pub quote: u64,
}

/// The immutable curve parameters of a pool, written once at creation.
#[derive(Clone, Copy, Debug, PartialEq, Eq, Structural)]
pub struct Config {
    /// Magnitude of the (negative) slope of the price function.
    pub alpha_abs: u128,
    /// Intercept of the price function.
    pub beta: u128,
    /// Numerator of the price factor.
    pub price_factor_num: u64,
    /// Denominator of the price factor.
    pub price_factor_denom: u64,
    /// Quote amount the curve raises in full, in base units.
    pub gamma_s: u64,
    /// Curve-asset amount sold out over the curve, in base units.
    pub gamma_m: u64,
    /// Curve-asset amount reserved for the secondary pool, in base units.
    pub omega_m: u64,
    /// The precision block.
    pub decimals: Decimals,
}

/// What one settled swap moves: the net amounts and the admin fees taken
/// from the input and the output side.
#[derive(Clone, Copy, Debug, PartialEq, Eq, Structural)]
pub struct SwapAmount {
    /// Net amount entering the pool.
    pub amount_in: u64,
    /// Net amount leaving the pool.
    pub amount_out: u64,
    /// Admin fee taken from the input side.
    pub admin_fee_in: u64,
    /// Admin fee taken from the output side.
    pub admin_fee_out: u64,
}

/// A bonding-curve pool: two reserves, accrued admin fees, the fee rates,
/// the curve parameters, and the lock state.
#[derive(Clone, Copy, Debug)]
pub struct BoundPool {
    /// Reserve of the curve asset.
    pub meme_reserve: Reserve,
    /// Reserve of the quote asset.
    pub quote_reserve: Reserve,
    /// Admin fees accrued in the curve asset.
    pub admin_fees_meme: u64,
    /// Admin fees accrued in the quote asset.
    pub admin_fees_quote: u64,
    /// Identity of the vault the quote fees are destined for.
    pub fee_vault_quote: [u8; 32],
    /// Identity of the pool creator.
    pub creator_addr: [u8; 32],
    /// The admin fee rates.
    pub fees: Fees,
    /// The curve parameters.
    pub config: Config,
    /// Tokens set aside for airdrops.
    pub airdropped_tokens: u64,
    /// Whether the pool has depleted its curve-asset reserve; terminal.
    pub locked: bool,
    /// Vesting period for bought tokens, in seconds.
    pub vesting_period: i64,
}

/// The reserved-asset amount scaled by the price factor, rounded down:
/// the quantity both creation-time checks compare against `gamma_m`.
pub open spec fn scaled_omega(omega_m: int, pfn: int, pfd: int) -> int {
    (omega_m * pfn) / pfd
}

/// The curve is negatively sloped: the scaled reserved amount stays below
/// the curve-asset amount.
pub open spec fn slope_ok(gamma_m: int, omega_m: int, pfn: int, pfd: int) -> bool {
    scaled_omega(omega_m, pfn, pfd) < gamma_m
}

/// The curve's intercept is positive: twice the curve-asset amount exceeds
/// the scaled reserved amount.
pub open spec fn intercept_ok(gamma_m: int, omega_m: int, pfn: int, pfd: int) -> bool {
    2 * gamma_m > scaled_omega(omega_m, pfn, pfd)
}

/// The decimal-precision constant for a net magnitude scale: none below
/// five, then descending powers of ten down to one at thirteen and above.
pub open spec fn decimals_for_scale(s: int) -> Option<int> {
    if s <= 4 {
        None
    } else if s == 5 {
        Some(100_000_000)
    } else if s == 6 {
        Some(10_000_000)
    } else if s == 7 {
        Some(1_000_000)
    } else if s == 8 {
        Some(100_000)
    } else if s == 9 {
        Some(10_000)
    } else if s == 10 {
        Some(1_000)
    } else if s == 11 {
        Some(100)
    } else if s == 12 {
        Some(10)
    } else {
        Some(1)
    }
}

/// What the slope derivation returns: the slope magnitude and its decimal
/// precision, or the creation failure.
pub open spec fn alpha_abs_spec(
    gamma_s: int,
    gamma_s_denom: int,
    gamma_m: int,
    omega_m: int,
    pfn: int,
    pfd: int,
) -> Result<(int, int), AmmError> {
    if !slope_ok(gamma_m, omega_m, pfn, pfd) {
        Err(AmmError::BondingCurveMustBeNegativelySloped)
    } else {
        let num = 2 * (gamma_m - scaled_omega(omega_m, pfn, pfd)) * (gamma_s_denom
            * gamma_s_denom);
        let denom = gamma_s * gamma_s;
        if num <= denom {
            Err(AmmError::EGammaSAboveRelativeLimit)
        } else {
            match decimals_for_scale(digits(num) - digits(denom)) {
                None => Err(AmmError::EScaleTooLow),
                Some(adec) => Ok(((num * adec) / denom, adec)),
            }
        }
    }
}

/// What the intercept derivation returns for a given precision.
pub open spec fn beta_spec(
    gamma_s: int,
    gamma_s_denom: int,
    gamma_m: int,
    omega_m: int,
    pfn: int,
    pfd: int,
    beta_decimals: int,
) -> int {
    ((2 * gamma_m - scaled_omega(omega_m, pfn, pfd)) * gamma_s_denom * beta_decimals) / gamma_s
}

/// The machine-width bounds under which the slope derivation cannot
/// overflow its 128-bit inputs and intermediates.
pub open spec fn alpha_inputs_ok(
    gamma_s: int,
    gamma_s_denom: int,
    gamma_m: int,
    omega_m: int,
    pfn: int,
    pfd: int,
) -> bool {
    &&& pfd >= 1
    &&& gamma_s >= 1
    &&& gamma_s_denom >= 1
    &&& omega_m * pfn <= u128::MAX
    &&& gamma_s_denom * gamma_s_denom <= u128::MAX
    &&& gamma_s * gamma_s <= u128::MAX
    &&& (scaled_omega(omega_m, pfn, pfd) < gamma_m ==> 2 * (gamma_m - scaled_omega(
        omega_m,
        pfn,
        pfd,
    )) * (gamma_s_denom * gamma_s_denom) <= u128::MAX)
}

/// The machine-width bounds under which the intercept derivation cannot
/// overflow its 128-bit intermediates.
pub open spec fn beta_inputs_ok(
    gamma_s: int,
    gamma_s_denom: int,
    gamma_m: int,
    omega_m: int,
    pfn: int,
    pfd: int,
    beta_decimals: int,
) -> bool {
    &&& pfd >= 1
    &&& gamma_s >= 1
    &&& omega_m * pfn <= u128::MAX
    &&& 2 * gamma_m <= u128::MAX
    &&& (intercept_ok(gamma_m, omega_m, pfn, pfd) ==> (2 * gamma_m - scaled_omega(
        omega_m,
        pfn,
        pfd,
    )) * gamma_s_denom <= u128::MAX && (2 * gamma_m - scaled_omega(omega_m, pfn, pfd))
        * gamma_s_denom * beta_decimals <= u128::MAX)
}

/// Fails creation unless the curve would be negatively sloped.
pub fn check_slope(
    gamma_m: u128,
    omega_m: u128,
    price_factor_num: u64,
    price_factor_denom: u64,
) -> (r: Result<(), AmmError>)
    requires
        omega_m * price_factor_num <= u128::MAX,
        price_factor_denom >= 1,
    ensures
        (match r {
            Ok(u) => slope_ok(
                gamma_m as int,
                omega_m as int,
                price_factor_num as int,
                price_factor_denom as int,
            ),
            Err(e) => !slope_ok(
                gamma_m as int,
                omega_m as int,
                price_factor_num as int,
                price_factor_denom as int,
            ) && e == AmmError::BondingCurveMustBeNegativelySloped,
        }),
{
    let pfo = (omega_m * (price_factor_num as u128)) / (price_factor_denom as u128);
    if pfo >= gamma_m {
        Err(AmmError::BondingCurveMustBeNegativelySloped)
    } else {
        Ok(())
    }
}

/// Fails creation unless the curve's intercept would be positive.
pub fn check_intercept(
    gamma_m: u128,
    omega_m: u128,
    price_factor_num: u64,
    price_factor_denom: u64,
) -> (r: Result<(), AmmError>)
    requires
        omega_m * price_factor_num <= u128::MAX,
        price_factor_denom >= 1,
        2 * gamma_m <= u128::MAX,
    ensures
        (match r {
            Ok(u) => intercept_ok(
                gamma_m as int,
                omega_m as int,
                price_factor_num as int,
                price_factor_denom as int,
            ),
            Err(e) => !intercept_ok(
                gamma_m as int,
                omega_m as int,
                price_factor_num as int,
                price_factor_denom as int,
            ) && e == AmmError::BondingCurveInterceptMustBePositive,
        }),
{
    let omp = (omega_m * (price_factor_num as u128)) / (price_factor_denom as u128);
    if 2 * gamma_m <= omp {
        Err(AmmError::BondingCurveInterceptMustBePositive)
    } else {
        Ok(())
    }
}

/// Decimal digit count of a 128-bit number, one digit for zero.
pub fn compute_scale(num_: u128) -> (r: u64)
    ensures
        r as int == digits(num_ as int),
{
    let mut num = num_;
    if num == 0 {
        1
    } else {
        let mut scale: u64 = 1;
        proof {
            lemma_digits_le_39(num_ as int);
            lemma_digits_bounds(num_ as int);
        }
        while num >= 10
            invariant
                digits(num_ as int) == digits(num as int) + scale - 1,
                1 <= scale,
                scale <= digits(num_ as int),
                digits(num_ as int) <= 39,
            decreases num,
        {
            proof {
                vstd::arithmetic::div_mod::lemma_div_decreases(num as int, 10);
                lemma_digits_bounds((num / 10) as int);
            }
            num = num / 10;
            scale = scale + 1;
        }
        scale
    }
}

/// A 128-bit number has at most thirty-nine decimal digits.
pub proof fn lemma_digits_le_39(n: int)
    requires
        0 <= n <= u128::MAX,
    ensures
        digits(n) <= 39,
{
    lemma_digits_bounds(n);
    if digits(n) >= 40 {
        lemma_pow10_small();
        lemma_pow10_adds(13, 13);
        lemma_pow10_adds(26, 13);
        lemma_pow10_increases(39, (digits(n) - 1) as nat);
        assert(n >= pow10((digits(n) - 1) as nat));
        assert(false);
    }
}

/// The values of the small powers of ten the derivation reasons about.
pub proof fn lemma_pow10_small()
    ensures
        pow10(0) == 1,
        pow10(1) == 10,
        pow10(2) == 100,
        pow10(3) == 1_000,
        pow10(4) == 10_000,
        pow10(5) == 100_000,
        pow10(6) == 1_000_000,
        pow10(7) == 10_000_000,
        pow10(8) == 100_000_000,
        pow10(9) == 1_000_000_000,
        pow10(10) == 10_000_000_000,
        pow10(11) == 100_000_000_000,
        pow10(12) == 1_000_000_000_000,
        pow10(13) == 10_000_000_000_000,
        pow10(14) == 100_000_000_000_000,
{
    assert(pow10(0) == 1);
    assert(pow10(1) == 10 * pow10(0));
    assert(pow10(2) == 10 * pow10(1));
    assert(pow10(3) == 10 * pow10(2));
    assert(pow10(4) == 10 * pow10(3));
    assert(pow10(5) == 10 * pow10(4));
    assert(pow10(6) == 10 * pow10(5));
    assert(pow10(7) == 10 * pow10(6));
    assert(pow10(8) == 10 * pow10(7));
    assert(pow10(9) == 10 * pow10(8));
    assert(pow10(10) == 10 * pow10(9));
    assert(pow10(11) == 10 * pow10(10));
    assert(pow10(12) == 10 * pow10(11));
    assert(pow10(13) == 10 * pow10(12));
    assert(pow10(14) == 10 * pow10(13));
}

/// Maps a net magnitude scale to the decimal-precision constant that keeps
/// the slope within a representable band; scales up to four are invalid.
pub fn compute_decimals(scale: u64) -> (r: Result<u128, AmmError>)
    ensures
        (match r {
            Ok(d) => decimals_for_scale(scale as int) == Some(d as int),
            Err(e) => decimals_for_scale(scale as int) is None && e == AmmError::EScaleTooLow,
        }),
{
    if scale <= 4 {
        Err(AmmError::EScaleTooLow)
    } else if scale == 5 {
        Ok(100_000_000)
    } else if scale == 6 {
        Ok(10_000_000)
    } else if scale == 7 {
        Ok(1_000_000)
    } else if scale == 8 {
        Ok(100_000)
    } else if scale == 9 {
        Ok(10_000)
    } else if scale == 10 {
        Ok(1_000)
    } else if scale == 11 {
        Ok(100)
    } else if scale == 12 {
        Ok(10)
    } else {
        Ok(1)
    }
}

/// The table value is a power of ten between one and one hundred million.
proof fn lemma_decimals_table(s: int, adec: int)
    requires
        decimals_for_scale(s) == Some(adec),
    ensures
        1 <= adec <= 100_000_000,
        s >= 13 ==> adec == 1,
        5 <= s <= 12 ==> adec == pow10((13 - s) as nat),
{
    lemma_pow10_small();
}

/// The derived slope fits in 128 bits: against a denominator of `d`
/// digits, the numerator has at most `d + 13` digits once scaled by the
/// table's precision, so the quotient stays under `10^14`.
proof fn lemma_alpha_quotient_fits(num: int, denom: int, adec: int)
    requires
        1 <= denom < num,
        num <= u128::MAX,
        decimals_for_scale(digits(num) - digits(denom)) == Some(adec),
    ensures
        0 <= (num * adec) / denom <= u128::MAX,
{
    let ns = digits(num);
    let ds = digits(denom);
    let net = ns - ds;
    lemma_decimals_table(net, adec);
    lemma_digits_bounds(num);
    lemma_digits_bounds(denom);
    assert(num * adec >= 0) by (nonlinear_arith)
        requires
            num >= 0,
            adec >= 0,
    ;
    vstd::arithmetic::div_mod::lemma_div_pos_is_pos(num * adec, denom);
    lemma_digits_ordered(denom, num);
    if net >= 13 {
        assert(num * 1 == num);
        vstd::arithmetic::div_mod::lemma_div_nonincreasing(num, denom);
    } else {
        let k = (13 - net) as nat;
        assert(adec == pow10(k));
        lemma_pow10_pos(k);
        assert(num * adec < pow10(ns) * pow10(k)) by (nonlinear_arith)
            requires
                0 <= num < pow10(ns),
                adec == pow10(k),
                pow10(k) >= 1,
        ;
        lemma_pow10_adds(ns, k);
        assert(ns + k == (ds - 1) + 14);
        lemma_pow10_adds((ds - 1) as nat, 14);
        assert(pow10(ns + k) == pow10((ds - 1) as nat) * pow10(14));
        assert(denom >= pow10((ds - 1) as nat));
        lemma_pow10_small();
        assert(pow10((ds - 1) as nat) * pow10(14) <= denom * pow10(14)) by (nonlinear_arith)
            requires
                pow10((ds - 1) as nat) <= denom,
                pow10(14) >= 1,
        ;
        vstd::arithmetic::div_mod::lemma_multiply_divide_lt(num * adec, denom, pow10(14));
    }
}

/// Derives the slope magnitude and its decimal precision from the curve
/// targets, failing on a curve that would not be negatively sloped, a
/// quote target too large for its decimal scale, or a magnitude ratio
/// below the precision table.
pub fn compute_alpha_abs(
    gamma_s: u128,
    gamma_s_denom: u128,
    gamma_m: u128,
    omega_m: u128,
    price_factor_num: u64,
    price_factor_denom: u64,
) -> (r: Result<(u128, u128), AmmError>)
    requires
        alpha_inputs_ok(
            gamma_s as int,
            gamma_s_denom as int,
            gamma_m as int,
            omega_m as int,
            price_factor_num as int,
            price_factor_denom as int,
        ),
    ensures
        (match r {
            Ok(p) => alpha_abs_spec(
                gamma_s as int,
                gamma_s_denom as int,
                gamma_m as int,
                omega_m as int,
                price_factor_num as int,
                price_factor_denom as int,
            ) == Ok::<(int, int), AmmError>((p.0 as int, p.1 as int)),
            Err(e) => alpha_abs_spec(
                gamma_s as int,
                gamma_s_denom as int,
                gamma_m as int,
                omega_m as int,
                price_factor_num as int,
                price_factor_denom as int,
            ) == Err::<(int, int), AmmError>(e),
        }),
{
    match check_slope(gamma_m, omega_m, price_factor_num, price_factor_denom) {
        Ok(u) => {},
        Err(e) => {
            return Err(e);
        },
    }
    let left = (omega_m * (price_factor_num as u128)) / (price_factor_denom as u128);
    proof {
        let gm = gamma_m as int;
        let l = left as int;
        let gsd = gamma_s_denom as int;
        assert(gsd * gsd >= 1) by (nonlinear_arith)
            requires
                gsd >= 1,
        ;
        assert(2 * (gm - l) <= 2 * (gm - l) * (gsd * gsd)) by (nonlinear_arith)
            requires
                gsd * gsd >= 1,
                gm - l >= 0,
        ;
    }
    let gsd2: u128 = gamma_s_denom * gamma_s_denom;
    let two_gm_left: u128 = 2 * (gamma_m - left);
    let num_lo = wide_from_u128(two_gm_left);
    let num_hi = wide_from_u128(gsd2);
    proof {
        assert(two_gm_left * gsd2 < pow256()) by (nonlinear_arith)
            requires
                0 <= two_gm_left < pow128(),
                0 <= gsd2 < pow128(),
                pow256() == pow128() * pow128(),
        ;
    }
    let num_w = wide_checked_mul(&num_lo, &num_hi).unwrap();
    let denom128: u128 = gamma_s * gamma_s;
    let num128 = wide_as_u128(&num_w);
    if num128 <= denom128 {
        return Err(AmmError::EGammaSAboveRelativeLimit);
    }
    let num_scale = compute_scale(num128);
    let denom_scale = compute_scale(denom128);
    proof {
        lemma_digits_ordered(denom128 as int, num128 as int);
    }
    let net_scale = num_scale - denom_scale;
    let alpha_decimals = match compute_decimals(net_scale) {
        Ok(d) => d,
        Err(e) => {
            return Err(e);
        },
    };
    proof {
        assert((gamma_s as int) * (gamma_s as int) >= 1) by (nonlinear_arith)
            requires
                gamma_s as int >= 1,
        ;
        lemma_alpha_quotient_fits(num128 as int, denom128 as int, alpha_decimals as int);
        lemma_decimals_table(net_scale as int, alpha_decimals as int);
        assert(num128 * alpha_decimals < pow256()) by (nonlinear_arith)
            requires
                0 <= num128 < pow128(),
                0 <= alpha_decimals < pow128(),
                pow256() == pow128() * pow128(),
        ;
        assert(denom128 as int >= 1);
    }
    let adec_w = wide_from_u128(alpha_decimals);
    let alpha_num = wide_checked_mul(&num_w, &adec_w).unwrap();
    let denom_w = wide_from_u128(denom128);
    let alpha_div = wide_checked_div(&alpha_num, &denom_w).unwrap();
    let alpha = wide_as_u128(&alpha_div);
    Ok((alpha, alpha_decimals))
}

/// Derives the intercept at the given precision, failing on a curve whose
/// intercept would not be positive.
pub fn compute_beta(
    gamma_s: u128,
    gamma_s_denom: u128,
    gamma_m: u128,
    omega_m: u128,
    price_factor_num: u64,
    price_factor_denom: u64,
    beta_decimals: u128,
) -> (r: Result<u128, AmmError>)
    requires
        beta_inputs_ok(
            gamma_s as int,
            gamma_s_denom as int,
            gamma_m as int,
            omega_m as int,
            price_factor_num as int,
            price_factor_denom as int,
            beta_decimals as int,
        ),
    ensures
        (match r {
            Ok(b) => intercept_ok(
                gamma_m as int,
                omega_m as int,
                price_factor_num as int,
                price_factor_denom as int,
            ) && b as int == beta_spec(
                gamma_s as int,
                gamma_s_denom as int,
                gamma_m as int,
                omega_m as int,
                price_factor_num as int,
                price_factor_denom as int,
                beta_decimals as int,
            ),
            Err(e) => !intercept_ok(
                gamma_m as int,
                omega_m as int,
                price_factor_num as int,
                price_factor_denom as int,
            ) && e == AmmError::BondingCurveInterceptMustBePositive,
        }),
{
    match check_intercept(gamma_m, omega_m, price_factor_num, price_factor_denom) {
        Ok(u) => {},
        Err(e) => {
            return Err(e);
        },
    }
    let left = 2 * gamma_m;
    let right = (omega_m * (price_factor_num as u128)) / (price_factor_denom as u128);
    let num = (left - right) * gamma_s_denom;
    let scaled = num * beta_decimals;
    proof {
        vstd::arithmetic::div_mod::lemma_div_pos_is_pos(scaled as int, gamma_s as int);
    }
    Ok(scaled / gamma_s)
}

} // verus!

verus! {

/// Forward solver, primary strategy: the curve integral evaluated as two
/// independently rounded terms. Absent when any 128-bit intermediate
/// overflows, a divisor is zero, or the subtraction of the terms would go
/// negative.
pub open spec fn delta_m1_spec(
    alpha_abs: int,
    beta: int,
    alpha_d: int,
    beta_d: int,
    s_a: int,
    s_b: int,
) -> Option<int> {
    let s = DECIMALS_S as int;
    if s_b < s_a {
        None
    } else if (s_b - s_a) * beta > u128::MAX {
        None
    } else if beta_d * s > u128::MAX {
        None
    } else if beta_d * s == 0 {
        None
    } else {
        let left = ((s_b - s_a) * beta) / (beta_d * s);
        if s_b * s_b > u128::MAX {
            None
        } else if s_a * s_a > u128::MAX {
            None
        } else if s_b * s_b < s_a * s_a {
            None
        } else if (s_b * s_b - s_a * s_a) * alpha_abs > u128::MAX {
            None
        } else if alpha_d == 0 {
            None
        } else {
            let right = (((s_b * s_b - s_a * s_a) * alpha_abs) / (s * s)) / (2 * alpha_d);
            if left < right {
                None
            } else {
                Some(left - right)
            }
        }
    }
}

/// Forward solver, fallback strategy: the same integral rearranged over a
/// single common denominator, so the subtraction happens before any
/// division. Absent on 128-bit overflow, a zero denominator, or a
/// negative difference.
pub open spec fn delta_m2_spec(
    alpha_abs: int,
    beta: int,
    alpha_d: int,
    beta_d: int,
    s_a: int,
    s_b: int,
) -> Option<int> {
    let s = DECIMALS_S as int;
    if (beta * 2) * s > u128::MAX {
        None
    } else if (beta * 2) * s * alpha_d > u128::MAX {
        None
    } else if (beta * 2) * s * alpha_d * (s_b - s_a) > u128::MAX {
        None
    } else {
        let left = (beta * 2) * s * alpha_d * (s_b - s_a);
        if alpha_abs * beta_d > u128::MAX {
            None
        } else if s_b * s_b > u128::MAX {
            None
        } else if s_a * s_a > u128::MAX {
            None
        } else if s_b * s_b < s_a * s_a {
            None
        } else if alpha_abs * beta_d * (s_b * s_b - s_a * s_a) > u128::MAX {
            None
        } else {
            let right = alpha_abs * beta_d * (s_b * s_b - s_a * s_a);
            if 2 * alpha_d * beta_d > u128::MAX {
                None
            } else if 2 * alpha_d * beta_d * (s * s) > u128::MAX {
                None
            } else if 2 * alpha_d * beta_d * (s * s) == 0 {
                None
            } else if left < right {
                None
            } else {
                Some((left - right) / (2 * alpha_d * beta_d * (s * s)))
            }
        }
    }
}

/// What the forward solver returns before narrowing: the primary
/// strategy's value, the fallback's where the primary is absent, or
/// nothing where both are.
pub open spec fn delta_m_spec(cfg: Config, s_a: int, s_b: int) -> Option<int> {
    match delta_m1_spec(
        cfg.alpha_abs as int,
        cfg.beta as int,
        cfg.decimals.alpha as int,
        cfg.decimals.beta as int,
        s_a,
        s_b,
    ) {
        Some(v) => Some(v),
        None => delta_m2_spec(
            cfg.alpha_abs as int,
            cfg.beta as int,
            cfg.decimals.alpha as int,
            cfg.decimals.beta as int,
            s_a,
            s_b,
        ),
    }
}

/// The forward solver's value as the caller receives it, narrowed to 64
/// bits the way the unchecked cast narrows.
pub open spec fn delta_m_u64_spec(cfg: Config, s_a: int, s_b: int) -> Option<int> {
    match delta_m_spec(cfg, s_a, s_b) {
        Some(v) => Some(v % 0x1_0000_0000_0000_0000),
        None => None,
    }
}

/// Primary forward strategy over 128-bit checked arithmetic.
fn delta_m1_strategy(
    alpha_abs: u128,
    beta: u128,
    alpha_decimals: u128,
    beta_decimals: u128,
    s_a: u128,
    s_b: u128,
) -> (r: Option<u128>)
    requires
        2 * alpha_decimals <= u128::MAX,
    ensures
        (match r {
            Some(v) => delta_m1_spec(
                alpha_abs as int,
                beta as int,
                alpha_decimals as int,
                beta_decimals as int,
                s_a as int,
                s_b as int,
            ) == Some(v as int),
            None => delta_m1_spec(
                alpha_abs as int,
                beta as int,
                alpha_decimals as int,
                beta_decimals as int,
                s_a as int,
                s_b as int,
            ) is None,
        }),
{
    let diff = match s_b.checked_sub(s_a) {
        Some(d) => d,
        None => {
            return None;
        },
    };
    let left_num = match diff.checked_mul(beta) {
        Some(x) => x,
        None => {
            return None;
        },
    };
    let left_denom = match beta_decimals.checked_mul(DECIMALS_S) {
        Some(x) => x,
        None => {
            return None;
        },
    };
    if left_denom == 0 {
        return None;
    }
    let left = left_num / left_denom;
    let sb2 = match s_b.checked_mul(s_b) {
        Some(x) => x,
        None => {
            return None;
        },
    };
    let sa2 = match s_a.checked_mul(s_a) {
        Some(x) => x,
        None => {
            return None;
        },
    };
    let sq_diff = match sb2.checked_sub(sa2) {
        Some(x) => x,
        None => {
            return None;
        },
    };
    let right_num = match sq_diff.checked_mul(alpha_abs) {
        Some(x) => x,
        None => {
            return None;
        },
    };
    if alpha_decimals == 0 {
        return None;
    }
    let right = (right_num / (DECIMALS_S * DECIMALS_S)) / (2 * alpha_decimals);
    if left < right {
        return None;
    }
    Some(left - right)
}

/// Fallback forward strategy over 128-bit checked arithmetic.
fn delta_m2_strategy(
    alpha_abs: u128,
    beta: u128,
    alpha_decimals: u128,
    beta_decimals: u128,
    s_a: u128,
    s_b: u128,
) -> (r: Option<u128>)
    requires
        s_a <= s_b,
        2 * beta <= u128::MAX,
        2 * alpha_decimals <= u128::MAX,
    ensures
        (match r {
            Some(v) => delta_m2_spec(
                alpha_abs as int,
                beta as int,
                alpha_decimals as int,
                beta_decimals as int,
                s_a as int,
                s_b as int,
            ) == Some(v as int),
            None => delta_m2_spec(
                alpha_abs as int,
                beta as int,
                alpha_decimals as int,
                beta_decimals as int,
                s_a as int,
                s_b as int,
            ) is None,
        }),
{
    let b2 = beta * 2;
    let l1 = match b2.checked_mul(DECIMALS_S) {
        Some(x) => x,
        None => {
            return None;
        },
    };
    let l2 = match l1.checked_mul(alpha_decimals) {
        Some(x) => x,
        None => {
            return None;
        },
    };
    let left = match l2.checked_mul(s_b - s_a) {
        Some(x) => x,
        None => {
            return None;
        },
    };
    let r1 = match alpha_abs.checked_mul(beta_decimals) {
        Some(x) => x,
        None => {
            return None;
        },
    };
    let sb2 = match s_b.checked_mul(s_b) {
        Some(x) => x,
        None => {
            return None;
        },
    };
    let sa2 = match s_a.checked_mul(s_a) {
        Some(x) => x,
        None => {
            return None;
        },
    };
    let sq_diff = match sb2.checked_sub(sa2) {
        Some(x) => x,
        None => {
            return None;
        },
    };
    let right = match r1.checked_mul(sq_diff) {
        Some(x) => x,
        None => {
            return None;
        },
    };
    let d1 = match (2 * alpha_decimals).checked_mul(beta_decimals) {
        Some(x) => x,
        None => {
            return None;
        },
    };
    let denom = match d1.checked_mul(DECIMALS_S * DECIMALS_S) {
        Some(x) => x,
        None => {
            return None;
        },
    };
    if denom == 0 {
        return None;
    }
    let num = match left.checked_sub(right) {
        Some(x) => x,
        None => {
            return None;
        },
    };
    Some(num / denom)
}

} // verus!

verus! {

/// Retry bound of the inverse solver's adaptive precision scale: the scale
/// grows a hundredfold per retry and leaves the 256-bit width long before
/// this many steps.
pub const SCALE_RETRY_LIMIT: u32 = 130;

/// One attempt of the discriminant computation at a given scale: absent
/// when any 256-bit product overflows.
pub open spec fn compute_a_step(u: int, alpha_d: int, w: int, v: int, scale: int) -> Option<int>
    recommends
        scale >= 1,
{
    if (u / scale) * u >= pow256() {
        None
    } else if (u / scale) * u * alpha_d >= pow256() {
        None
    } else if (v / scale) * v >= pow256() {
        None
    } else if (v / scale) * v * w >= pow256() {
        None
    } else if (u / scale) * u * alpha_d + (v / scale) * v * w >= pow256() {
        None
    } else {
        let root = sqrt_floor((u / scale) * u * alpha_d + (v / scale) * v * w) * sqrt_floor(
            scale,
        );
        if root >= pow256() {
            None
        } else {
            Some(root)
        }
    }
}

/// The discriminant computation with its retry ladder: the first scale in
/// `1, 100, 100^2, ...` whose attempt fits, absent when the scale itself
/// leaves 256 bits or the fuel runs out.
pub open spec fn compute_a_rec(u: int, alpha_d: int, w: int, v: int, scale: int, fuel: nat) -> Option<
    int,
>
    decreases fuel,
{
    if fuel == 0 {
        None
    } else {
        match compute_a_step(u, alpha_d, w, v, scale) {
            Some(a) => Some(a),
            None => if scale * 100 < pow256() {
                compute_a_rec(u, alpha_d, w, v, scale * 100, (fuel - 1) as nat)
            } else {
                None
            },
        }
    }
}

/// What [`compute_a`] returns: the retry ladder started at scale one.
pub open spec fn compute_a_spec(u: int, alpha_d: int, w: int, v: int) -> Option<int> {
    compute_a_rec(u, alpha_d, w, v, 1, SCALE_RETRY_LIMIT as nat)
}

/// One attempt of the discriminant computation at the given scale.
fn compute_a_attempt(u: &Wide, alpha_d: &Wide, w: &Wide, v: &Wide, scale: &Wide) -> (r: Option<
    Wide,
>)
    requires
        scale.value() >= 1,
    ensures
        opt_wide_val(r) == compute_a_step(u.value(), alpha_d.value(), w.value(), v.value(), scale.value()),
{
    let ud = wide_checked_div(u, scale).unwrap();
    let l1 = match wide_checked_mul(&ud, u) {
        Some(x) => x,
        None => {
            return None;
        },
    };
    let left = match wide_checked_mul(&l1, alpha_d) {
        Some(x) => x,
        None => {
            return None;
        },
    };
    let vd = wide_checked_div(v, scale).unwrap();
    let r1 = match wide_checked_mul(&vd, v) {
        Some(x) => x,
        None => {
            return None;
        },
    };
    let right = match wide_checked_mul(&r1, w) {
        Some(x) => x,
        None => {
            return None;
        },
    };
    let sum = match wide_checked_add(&left, &right) {
        Some(x) => x,
        None => {
            return None;
        },
    };
    let root = wide_sqrt(&sum);
    let scale_root = wide_sqrt(scale);
    proof {
        lemma_wide_value_bounds(&sum);
        lemma_wide_value_bounds(&root);
        lemma_wide_value_bounds(scale);
        lemma_wide_value_bounds(&scale_root);
        lemma_sqrt_unique(sum.value(), root.value());
        lemma_sqrt_unique(scale.value(), scale_root.value());
    }
    wide_checked_mul(&root, &scale_root)
}

/// The discriminant-like term of the inverse solver, retried at ever
/// coarser scales until its intermediates fit the 256-bit width.
fn compute_a(u: &Wide, alpha_d: &Wide, w: &Wide, v: &Wide) -> (r: Option<Wide>)
    ensures
        opt_wide_val(r) == compute_a_spec(u.value(), alpha_d.value(), w.value(), v.value()),
{
    let mut scale = wide_from_u128(1);
    let mut fuel: u32 = SCALE_RETRY_LIMIT;
    loop
        invariant
            1 <= scale.value(),
            fuel <= SCALE_RETRY_LIMIT,
            compute_a_spec(u.value(), alpha_d.value(), w.value(), v.value()) == compute_a_rec(
                u.value(),
                alpha_d.value(),
                w.value(),
                v.value(),
                scale.value(),
                fuel as nat,
            ),
        decreases fuel,
    {
        if fuel == 0 {
            return None;
        }
        match compute_a_attempt(u, alpha_d, w, v, &scale) {
            Some(a) => {
                return Some(a);
            },
            None => {
                let hundred = wide_from_u128(100);
                match wide_checked_mul(&scale, &hundred) {
                    Some(s2) => {
                        scale = s2;
                        fuel = fuel - 1;
                    },
                    None => {
                        return None;
                    },
                }
            },
        }
    }
}

/// The inverse solver's exact mirror: the quote-amount delta recovered for
/// an asset-amount delta at reserve level `s_b`, absent when the 256-bit
/// pipeline overflows at any step or the result leaves 128 bits.
pub open spec fn delta_s_spec(
    alpha_abs: int,
    beta: int,
    alpha_d: int,
    beta_d: int,
    s_b: int,
    delta_m: int,
) -> Option<int> {
    let s = DECIMALS_S as int;
    if 2 * beta >= pow256() {
        None
    } else if 2 * beta * alpha_d >= pow256() {
        None
    } else if 2 * beta * alpha_d * s >= pow256() {
        None
    } else if 2 * alpha_abs >= pow256() {
        None
    } else if 2 * alpha_abs * s_b >= pow256() {
        None
    } else if 2 * alpha_abs * s_b * beta_d >= pow256() {
        None
    } else if 2 * beta * alpha_d * s < 2 * alpha_abs * s_b * beta_d {
        None
    } else {
        let uu = 2 * beta * alpha_d * s - 2 * alpha_abs * s_b * beta_d;
        if alpha_d * beta_d >= pow256() {
            None
        } else if alpha_d * beta_d * s >= pow256() {
            None
        } else {
            let vv = alpha_d * beta_d * s;
            if 8 * delta_m >= pow256() {
                None
            } else if 8 * delta_m * alpha_abs >= pow256() {
                None
            } else {
                let ww = 8 * delta_m * alpha_abs;
                match compute_a_spec(uu, alpha_d, ww, vv) {
                    None => None,
                    Some(aa) => {
                        if vv * vv >= pow256() {
                            None
                        } else if vv * vv * alpha_d >= pow256() {
                            None
                        } else {
                            let bb = sqrt_floor(vv * vv * alpha_d);
                            let left = mul_div_spec(
                                seq![s, alpha_d, aa, vv],
                                seq![2, alpha_abs, bb, vv],
                            );
                            let right = mul_div_spec(
                                seq![s, alpha_d, uu, bb],
                                seq![2, alpha_abs, bb, vv],
                            );
                            match (left, right) {
                                (Some(l), Some(r)) => if l >= r {
                                    if l - r < pow128() {
                                        Some(l - r)
                                    } else {
                                        None
                                    }
                                } else {
                                    None
                                },
                                _ => None,
                            }
                        }
                    },
                }
            }
        }
    }
}

/// Inverse solver over the 256-bit pipeline: multiply-divide-and-square-
/// root with adaptive precision. A result too large for the final 128-bit
/// narrowing is reported as failure rather than cut down.
fn delta_s_strategy(
    alpha_abs: u128,
    beta: u128,
    alpha_decimals: u128,
    beta_decimals: u128,
    s_b: u128,
    delta_m: u128,
) -> (r: Option<u128>)
    ensures
        (match r {
            Some(x) => delta_s_spec(
                alpha_abs as int,
                beta as int,
                alpha_decimals as int,
                beta_decimals as int,
                s_b as int,
                delta_m as int,
            ) == Some(x as int),
            None => delta_s_spec(
                alpha_abs as int,
                beta as int,
                alpha_decimals as int,
                beta_decimals as int,
                s_b as int,
                delta_m as int,
            ) is None,
        }),
{
    let alpha_w = wide_from_u128(alpha_abs);
    let beta_w = wide_from_u128(beta);
    let ad_w = wide_from_u128(alpha_decimals);
    let bd_w = wide_from_u128(beta_decimals);
    let sb_w = wide_from_u128(s_b);
    let dm_w = wide_from_u128(delta_m);
    let s_w = wide_from_u128(DECIMALS_S);
    let two = wide_from_u128(2);
    let eight = wide_from_u128(8);
    let t1 = match wide_checked_mul(&two, &beta_w) {
        Some(x) => x,
        None => {
            return None;
        },
    };
    let t2 = match wide_checked_mul(&t1, &ad_w) {
        Some(x) => x,
        None => {
            return None;
        },
    };
    let t3 = match wide_checked_mul(&t2, &s_w) {
        Some(x) => x,
        None => {
            return None;
        },
    };
    let q1 = match wide_checked_mul(&two, &alpha_w) {
        Some(x) => x,
        None => {
            return None;
        },
    };
    let q2 = match wide_checked_mul(&q1, &sb_w) {
        Some(x) => x,
        None => {
            return None;
        },
    };
    let q3 = match wide_checked_mul(&q2, &bd_w) {
        Some(x) => x,
        None => {
            return None;
        },
    };
    let uu = match wide_checked_sub(&t3, &q3) {
        Some(x) => x,
        None => {
            return None;
        },
    };
    let v1 = match wide_checked_mul(&ad_w, &bd_w) {
        Some(x) => x,
        None => {
            return None;
        },
    };
    let vv = match wide_checked_mul(&v1, &s_w) {
        Some(x) => x,
        None => {
            return None;
        },
    };
    let w1 = match wide_checked_mul(&eight, &dm_w) {
        Some(x) => x,
        None => {
            return None;
        },
    };
    let ww = match wide_checked_mul(&w1, &alpha_w) {
        Some(x) => x,
        None => {
            return None;
        },
    };
    let aa = match compute_a(&uu, &ad_w, &ww, &vv) {
        Some(x) => x,
        None => {
            return None;
        },
    };
    let b1 = match wide_checked_mul(&vv, &vv) {
        Some(x) => x,
        None => {
            return None;
        },
    };
    let b2 = match wide_checked_mul(&b1, &ad_w) {
        Some(x) => x,
        None => {
            return None;
        },
    };
    let bb = wide_sqrt(&b2);
    proof {
        lemma_wide_value_bounds(&b2);
        lemma_wide_value_bounds(&bb);
        lemma_sqrt_unique(b2.value(), bb.value());
    }
    let mut num_1: Vec<Wide> = Vec::new();
    num_1.push(s_w);
    num_1.push(ad_w);
    num_1.push(aa);
    num_1.push(vv);
    let mut num_2: Vec<Wide> = Vec::new();
    num_2.push(s_w);
    num_2.push(ad_w);
    num_2.push(uu);
    num_2.push(bb);
    let mut denom_f: Vec<Wide> = Vec::new();
    denom_f.push(two);
    denom_f.push(alpha_w);
    denom_f.push(bb);
    denom_f.push(vv);
    proof {
        assert(wide_vals(num_1@) =~= seq![
            DECIMALS_S as int,
            alpha_decimals as int,
            aa.value(),
            vv.value(),
        ]);
        assert(wide_vals(num_2@) =~= seq![
            DECIMALS_S as int,
            alpha_decimals as int,
            uu.value(),
            bb.value(),
        ]);
        assert(wide_vals(denom_f@) =~= seq![2, alpha_abs as int, bb.value(), vv.value()]);
    }
    let left = match multiply_divide(&num_1, &denom_f) {
        Some(x) => x,
        None => {
            return None;
        },
    };
    let right = match multiply_divide(&num_2, &denom_f) {
        Some(x) => x,
        None => {
            return None;
        },
    };
    let d = match wide_checked_sub(&left, &right) {
        Some(x) => x,
        None => {
            return None;
        },
    };
    if wide_fits_u128(&d) {
        proof {
            lemma_wide_value_bounds(&d);
        }
        Some(wide_as_u128(&d))
    } else {
        None
    }
}

impl BoundPool {
    /// Forward solve: the curve-asset amount released when the quote
    /// reserve rises from `s_a` to `s_b`, narrowed to 64 bits; fails with
    /// the math-overflow condition when both strategies exhaust the
    /// working width.
    pub fn compute_delta_m(&self, s_a: u64, s_b: u64) -> (r: Result<u64, AmmError>)
        requires
            s_a <= s_b,
            2 * self.config.decimals.alpha <= u128::MAX,
            2 * self.config.beta <= u128::MAX,
        ensures
            (match r {
                Ok(v) => delta_m_u64_spec(self.config, s_a as int, s_b as int) == Some(v as int),
                Err(e) => delta_m_u64_spec(self.config, s_a as int, s_b as int) is None && e
                    == AmmError::MathOverflow,
            }),
    {
        let s_a = s_a as u128;
        let s_b = s_b as u128;
        let alpha_abs = self.config.alpha_abs;
        let beta = self.config.beta;
        let alpha_decimals = self.config.decimals.alpha;
        let beta_decimals = self.config.decimals.beta;
        match delta_m1_strategy(alpha_abs, beta, alpha_decimals, beta_decimals, s_a, s_b) {
            Some(delta_m) => {
                proof {
                    lemma_u128_truncate(delta_m);
                }
                Ok(#[verifier::truncate] (delta_m as u64))
            },
            None => {
                match delta_m2_strategy(alpha_abs, beta, alpha_decimals, beta_decimals, s_a, s_b) {
                    Some(delta_m) => {
                        proof {
                            lemma_u128_truncate(delta_m);
                        }
                        Ok(#[verifier::truncate] (delta_m as u64))
                    },
                    None => Err(AmmError::MathOverflow),
                }
            },
        }
    }

    /// Inverse solve: the quote amount released for an asset-amount delta
    /// at quote reserve level `s_b`, narrowed to 64 bits; fails with the
    /// math-overflow condition when the pipeline exhausts the working
    /// width.
    pub fn compute_delta_s(&self, s_b: u64, delta_m: u64) -> (r: Result<u64, AmmError>)
        ensures
            (match r {
                Ok(v) => delta_s_u64_spec(self.config, s_b as int, delta_m as int) == Some(
                    v as int,
                ),
                Err(e) => delta_s_u64_spec(self.config, s_b as int, delta_m as int) is None && e
                    == AmmError::MathOverflow,
            }),
    {
        let s_b = s_b as u128;
        let delta_m = delta_m as u128;
        match delta_s_strategy(
            self.config.alpha_abs,
            self.config.beta,
            self.config.decimals.alpha,
            self.config.decimals.beta,
            s_b,
            delta_m,
        ) {
            Some(delta_s) => {
                proof {
                    lemma_u128_truncate(delta_s);
                }
                Ok(#[verifier::truncate] (delta_s as u64))
            },
            None => Err(AmmError::MathOverflow),
        }
    }
}

/// The inverse solver's value as the caller receives it, narrowed to 64
/// bits the way the unchecked cast narrows.
pub open spec fn delta_s_u64_spec(cfg: Config, s_b: int, delta_m: int) -> Option<int> {
    match delta_s_spec(
        cfg.alpha_abs as int,
        cfg.beta as int,
        cfg.decimals.alpha as int,
        cfg.decimals.beta as int,
        s_b,
        delta_m,
    ) {
        Some(v) => Some(v % 0x1_0000_0000_0000_0000),
        None => None,
    }
}

} // verus!

verus! {

impl Config {
    /// The shape every derived parameter block has: precisions from the
    /// scale table, a positive slope magnitude, an intercept small enough
    /// to double, and a positive quote target.
    pub open spec fn wf(self) -> bool {
        &&& 1 <= self.decimals.alpha <= 100_000_000
        &&& 1 <= self.decimals.beta <= 100_000_000
        &&& self.decimals.quote >= 1
        &&& self.alpha_abs >= 1
        &&& 2 * self.beta <= u128::MAX
        &&& self.gamma_s >= 1
    }
}

impl BoundPool {
    /// The pool invariant: sound parameters and fee rates, and reserves
    /// within the curve's two targets.
    pub open spec fn wf(self) -> bool {
        &&& self.config.wf()
        &&& self.fees.wf()
        &&& self.quote_reserve.tokens <= self.config.gamma_s
        &&& self.meme_reserve.tokens <= self.config.gamma_m
    }

    /// What a buy (quote in, curve asset out) settles to: the input is
    /// clamped to the remaining quote headroom after the input-side fee;
    /// an input that reaches the headroom short-circuits to the whole
    /// remaining curve-asset reserve; otherwise the forward solver prices
    /// the clamped input; the output-side fee is taken and the slippage
    /// minimum enforced.
    pub open spec fn buy_swap_spec(self, delta_s: u64, min_delta_m: u64) -> Result<
        SwapAmount,
        AmmError,
    > {
        let m_t0 = self.meme_reserve.tokens as int;
        let s_t0 = self.quote_reserve.tokens as int;
        let max_in = self.config.gamma_s - s_t0;
        let fee_in = fee_amount_spec(delta_s as int, self.fees.fee_quote_percent as int);
        let is_max = delta_s - fee_in >= max_in;
        let net_in = min_int(delta_s - fee_in, max_in);
        let gross_out = if is_max {
            Some(m_t0)
        } else {
            delta_m_u64_spec(self.config, s_t0, s_t0 + net_in)
        };
        match gross_out {
            None => Err(AmmError::MathOverflow),
            Some(g) => {
                let fee_out = fee_amount_spec(g, self.fees.fee_meme_percent as int);
                if g - fee_out < min_delta_m {
                    Err(AmmError::SlippageExceeded)
                } else {
                    Ok(
                        SwapAmount {
                            amount_in: net_in as u64,
                            amount_out: (g - fee_out) as u64,
                            admin_fee_in: fee_in as u64,
                            admin_fee_out: fee_out as u64,
                        },
                    )
                }
            },
        }
    }

    /// What a sell (curve asset in, quote out) settles to, symmetric to
    /// the buy but priced by the inverse solver — and with both fees taken
    /// twice, exactly as the settled behaviour has it (a flagged
    /// asymmetry, preserved rather than corrected).
    pub open spec fn sell_swap_spec(self, delta_m: u64, min_delta_s: u64) -> Result<
        SwapAmount,
        AmmError,
    > {
        let m_b = self.meme_reserve.tokens as int;
        let s_b = self.quote_reserve.tokens as int;
        let max_in = self.config.gamma_m - m_b;
        let fee_in = 2 * fee_amount_spec(delta_m as int, self.fees.fee_meme_percent as int);
        let is_max = delta_m - fee_in >= max_in;
        let net_in = min_int(delta_m - fee_in, max_in);
        let gross_out = if is_max {
            Some(s_b)
        } else {
            delta_s_u64_spec(self.config, s_b, net_in)
        };
        match gross_out {
            None => Err(AmmError::MathOverflow),
            Some(g) => {
                let fee_out = 2 * fee_amount_spec(g, self.fees.fee_quote_percent as int);
                if g - fee_out < min_delta_s {
                    Err(AmmError::SlippageExceeded)
                } else {
                    Ok(
                        SwapAmount {
                            amount_in: net_in as u64,
                            amount_out: (g - fee_out) as u64,
                            admin_fee_in: fee_in as u64,
                            admin_fee_out: fee_out as u64,
                        },
                    )
                }
            },
        }
    }

    /// Settles a buy: clamps the fee-adjusted input to the quote headroom,
    /// prices it, takes the output-side fee, and rejects on slippage.
    pub fn buy_meme_swap_amounts(&self, delta_s: u64, min_delta_m: u64) -> (r: Result<
        SwapAmount,
        AmmError,
    >)
        requires
            self.wf(),
        ensures
            r == self.buy_swap_spec(delta_s, min_delta_m),
    {
        let (m_t0, s_t0) = self.balances();
        let max_delta_s = self.config.gamma_s - s_t0;
        proof {
            lemma_fee_le_amount(delta_s as int, self.fees.fee_quote_percent as int);
        }
        let admin_fee_in = self.fees.get_fee_quote_amount(delta_s).unwrap();
        let is_max = delta_s - admin_fee_in >= max_delta_s;
        let net_delta_s = if delta_s - admin_fee_in < max_delta_s {
            delta_s - admin_fee_in
        } else {
            max_delta_s
        };
        let delta_m = if is_max {
            m_t0
        } else {
            match self.compute_delta_m(s_t0, s_t0 + net_delta_s) {
                Ok(v) => v,
                Err(e) => {
                    return Err(e);
                },
            }
        };
        proof {
            lemma_fee_le_amount(delta_m as int, self.fees.fee_meme_percent as int);
        }
        let admin_fee_out = self.fees.get_fee_meme_amount(delta_m).unwrap();
        let net_delta_m = delta_m - admin_fee_out;
        if net_delta_m < min_delta_m {
            return Err(AmmError::SlippageExceeded);
        }
        Ok(
            SwapAmount {
                amount_in: net_delta_s,
                amount_out: net_delta_m,
                admin_fee_in,
                admin_fee_out,
            },
        )
    }

    /// Settles a sell: clamps the fee-adjusted input to the curve-asset
    /// headroom, prices it inversely, takes the doubled output-side fee,
    /// and rejects on slippage.
    pub fn sell_meme_swap_amounts(&self, delta_m: u64, min_delta_s: u64) -> (r: Result<
        SwapAmount,
        AmmError,
    >)
        requires
            self.wf(),
        ensures
            r == self.sell_swap_spec(delta_m, min_delta_s),
    {
        let (m_b, s_b) = self.balances();
        let max_delta_m = self.config.gamma_m - m_b;
        proof {
            lemma_double_fee_le_amount(delta_m as int, self.fees.fee_meme_percent as int);
            lemma_fee_le_amount(delta_m as int, self.fees.fee_meme_percent as int);
        }
        let admin_fee_in = self.fees.get_fee_meme_amount(delta_m).unwrap() * 2;
        let is_max = delta_m - admin_fee_in >= max_delta_m;
        let net_delta_m = if delta_m - admin_fee_in < max_delta_m {
            delta_m - admin_fee_in
        } else {
            max_delta_m
        };
        let delta_s = if is_max {
            s_b
        } else {
            match self.compute_delta_s(s_b, net_delta_m) {
                Ok(v) => v,
                Err(e) => {
                    return Err(e);
                },
            }
        };
        proof {
            lemma_double_fee_le_amount(delta_s as int, self.fees.fee_quote_percent as int);
            lemma_fee_le_amount(delta_s as int, self.fees.fee_quote_percent as int);
        }
        let admin_fee_out = self.fees.get_fee_quote_amount(delta_s).unwrap() * 2;
        let net_delta_s = delta_s - admin_fee_out;
        if net_delta_s < min_delta_s {
            return Err(AmmError::SlippageExceeded);
        }
        Ok(
            SwapAmount {
                amount_in: net_delta_m,
                amount_out: net_delta_s,
                admin_fee_in,
                admin_fee_out,
            },
        )
    }

    /// Settles a swap in either direction; the caller owes a trade that
    /// neither overflows the solver nor breaches its slippage minimum.
    pub fn swap_amounts(&self, coin_in_amount: u64, coin_out_min_value: u64, buy_meme: bool) -> (r:
        SwapAmount)
        requires
            self.wf(),
            buy_meme ==> self.buy_swap_spec(coin_in_amount, coin_out_min_value) is Ok,
            !buy_meme ==> self.sell_swap_spec(coin_in_amount, coin_out_min_value) is Ok,
        ensures
            buy_meme ==> Ok::<SwapAmount, AmmError>(r) == self.buy_swap_spec(
                coin_in_amount,
                coin_out_min_value,
            ),
            !buy_meme ==> Ok::<SwapAmount, AmmError>(r) == self.sell_swap_spec(
                coin_in_amount,
                coin_out_min_value,
            ),
    {
        if buy_meme {
            self.buy_meme_swap_amounts(coin_in_amount, coin_out_min_value).unwrap()
        } else {
            self.sell_meme_swap_amounts(coin_in_amount, coin_out_min_value).unwrap()
        }
    }

    /// The two reserve levels: curve asset first, quote second.
    pub fn balances(&self) -> (r: (u64, u64))
        ensures
            r.0 == self.meme_reserve.tokens,
            r.1 == self.quote_reserve.tokens,
    {
        (self.meme_reserve.tokens, self.quote_reserve.tokens)
    }

    /// The validation every swap entry point runs before pricing: a zero
    /// amount and a locked pool are rejected, in that order.
    pub fn check_swap_allowed(&self, coin_in_amount: u64) -> (r: Result<(), AmmError>)
        ensures
            (match r {
                Ok(u) => coin_in_amount != 0 && !self.locked,
                Err(e) => (coin_in_amount == 0 && e == AmmError::NoZeroTokens) || (coin_in_amount
                    != 0 && self.locked && e == AmmError::PoolIsLocked),
            }),
    {
        if coin_in_amount == 0 {
            return Err(AmmError::NoZeroTokens);
        }
        if self.locked {
            return Err(AmmError::PoolIsLocked);
        }
        Ok(())
    }

    /// Applies a settled buy to the pool: both fees accrue, the quote
    /// reserve grows by the net input, the curve-asset reserve shrinks by
    /// the gross output, and a reserve driven to exactly zero locks the
    /// pool for good.
    pub fn apply_buy(&mut self, swap: &SwapAmount)
        requires
            old(self).admin_fees_quote + swap.admin_fee_in <= u64::MAX,
            old(self).admin_fees_meme + swap.admin_fee_out <= u64::MAX,
            old(self).quote_reserve.tokens + swap.amount_in <= u64::MAX,
            swap.amount_out + swap.admin_fee_out <= old(self).meme_reserve.tokens,
        ensures
            final(self).admin_fees_quote == old(self).admin_fees_quote + swap.admin_fee_in,
            final(self).admin_fees_meme == old(self).admin_fees_meme + swap.admin_fee_out,
            final(self).quote_reserve.tokens == old(self).quote_reserve.tokens + swap.amount_in,
            final(self).meme_reserve.tokens == old(self).meme_reserve.tokens - (swap.amount_out
                + swap.admin_fee_out),
            final(self).locked == (old(self).locked || final(self).meme_reserve.tokens == 0),
            final(self).quote_reserve.mint == old(self).quote_reserve.mint,
            final(self).quote_reserve.vault == old(self).quote_reserve.vault,
            final(self).meme_reserve.mint == old(self).meme_reserve.mint,
            final(self).meme_reserve.vault == old(self).meme_reserve.vault,
            final(self).fees == old(self).fees,
            final(self).config == old(self).config,
            final(self).fee_vault_quote == old(self).fee_vault_quote,
            final(self).creator_addr == old(self).creator_addr,
            final(self).airdropped_tokens == old(self).airdropped_tokens,
            final(self).vesting_period == old(self).vesting_period,
    {
        self.admin_fees_quote = self.admin_fees_quote + swap.admin_fee_in;
        self.admin_fees_meme = self.admin_fees_meme + swap.admin_fee_out;
        self.quote_reserve.tokens = self.quote_reserve.tokens + swap.amount_in;
        self.meme_reserve.tokens = self.meme_reserve.tokens - (swap.amount_out
            + swap.admin_fee_out);
        if self.meme_reserve.tokens == 0 {
            self.locked = true;
        }
    }

    /// Applies a settled sell to the pool: both fees accrue, the
    /// curve-asset reserve grows by the net input, and the quote reserve
    /// shrinks by the gross output. A sell never changes the lock.
    pub fn apply_sell(&mut self, swap: &SwapAmount)
        requires
            old(self).admin_fees_meme + swap.admin_fee_in <= u64::MAX,
            old(self).admin_fees_quote + swap.admin_fee_out <= u64::MAX,
            old(self).meme_reserve.tokens + swap.amount_in <= u64::MAX,
            swap.amount_out + swap.admin_fee_out <= old(self).quote_reserve.tokens,
        ensures
            final(self).admin_fees_meme == old(self).admin_fees_meme + swap.admin_fee_in,
            final(self).admin_fees_quote == old(self).admin_fees_quote + swap.admin_fee_out,
            final(self).meme_reserve.tokens == old(self).meme_reserve.tokens + swap.amount_in,
            final(self).quote_reserve.tokens == old(self).quote_reserve.tokens - (swap.amount_out
                + swap.admin_fee_out),
            final(self).locked == old(self).locked,
            final(self).quote_reserve.mint == old(self).quote_reserve.mint,
            final(self).quote_reserve.vault == old(self).quote_reserve.vault,
            final(self).meme_reserve.mint == old(self).meme_reserve.mint,
            final(self).meme_reserve.vault == old(self).meme_reserve.vault,
            final(self).fees == old(self).fees,
            final(self).config == old(self).config,
            final(self).fee_vault_quote == old(self).fee_vault_quote,
            final(self).creator_addr == old(self).creator_addr,
            final(self).airdropped_tokens == old(self).airdropped_tokens,
            final(self).vesting_period == old(self).vesting_period,
    {
        self.admin_fees_meme = self.admin_fees_meme + swap.admin_fee_in;
        self.admin_fees_quote = self.admin_fees_quote + swap.admin_fee_out;
        self.meme_reserve.tokens = self.meme_reserve.tokens + swap.amount_in;
        self.quote_reserve.tokens = self.quote_reserve.tokens - (swap.amount_out
            + swap.admin_fee_out);
    }

    /// Bytes of ledger storage a pool account occupies: the account
    /// discriminator, each field at its stored size, and padding.
    pub fn space() -> (r: usize)
        ensures
            r == 513,
    {
        let discriminant: usize = 8;
        let meme_reserve: usize = 72;
        let quote_reserve: usize = 72;
        let admin_fees_meme: usize = 8;
        let admin_fees_quote: usize = 8;
        let admin_vault_quote: usize = 32;
        let creator_addr: usize = 32;
        let fees: usize = 16;
        let config: usize = 128;
        let locked: usize = 1;
        let airdropped_tokens: usize = 8;
        let padding: usize = 128;
        discriminant + meme_reserve + quote_reserve + admin_fees_meme + admin_fees_quote
            + admin_vault_quote + creator_addr + fees + config + locked + airdropped_tokens
            + padding
    }
}

} // verus!

verus! {

/// Derives the full parameter block of a new pool: the quote decimal
/// divisor, the slope and its precision, and the intercept at the same
/// precision, assembled into a `Config` that satisfies the pool invariant.
pub fn build_config(
    gamma_s: u64,
    quote_decimals: u32,
    gamma_m: u64,
    omega_m: u64,
    price_factor_num: u64,
    price_factor_denom: u64,
) -> (r: Result<Config, AmmError>)
    requires
        pow10(quote_decimals as nat) <= u128::MAX,
        alpha_inputs_ok(
            gamma_s as int,
            pow10(quote_decimals as nat),
            gamma_m as int,
            omega_m as int,
            price_factor_num as int,
            price_factor_denom as int,
        ),
        (alpha_abs_spec(
            gamma_s as int,
            pow10(quote_decimals as nat),
            gamma_m as int,
            omega_m as int,
            price_factor_num as int,
            price_factor_denom as int,
        ) matches Ok(p) ==> beta_inputs_ok(
            gamma_s as int,
            pow10(quote_decimals as nat),
            gamma_m as int,
            omega_m as int,
            price_factor_num as int,
            price_factor_denom as int,
            p.1,
        ) && (intercept_ok(
            gamma_m as int,
            omega_m as int,
            price_factor_num as int,
            price_factor_denom as int,
        ) ==> 2 * beta_spec(
            gamma_s as int,
            pow10(quote_decimals as nat),
            gamma_m as int,
            omega_m as int,
            price_factor_num as int,
            price_factor_denom as int,
            p.1,
        ) <= u128::MAX)),
    ensures
        (match r {
            Ok(cfg) => {
                &&& alpha_abs_spec(
                    gamma_s as int,
                    pow10(quote_decimals as nat),
                    gamma_m as int,
                    omega_m as int,
                    price_factor_num as int,
                    price_factor_denom as int,
                ) == Ok::<(int, int), AmmError>(
                    (cfg.alpha_abs as int, cfg.decimals.alpha as int),
                )
                &&& intercept_ok(
                    gamma_m as int,
                    omega_m as int,
                    price_factor_num as int,
                    price_factor_denom as int,
                )
                &&& cfg.beta as int == beta_spec(
                    gamma_s as int,
                    pow10(quote_decimals as nat),
                    gamma_m as int,
                    omega_m as int,
                    price_factor_num as int,
                    price_factor_denom as int,
                    cfg.decimals.alpha as int,
                )
                &&& cfg.decimals.beta == cfg.decimals.alpha
                &&& cfg.decimals.quote as int == pow10(quote_decimals as nat)
                &&& cfg.gamma_s == gamma_s
                &&& cfg.gamma_m == gamma_m
                &&& cfg.omega_m == omega_m
                &&& cfg.price_factor_num == price_factor_num
                &&& cfg.price_factor_denom == price_factor_denom
                &&& cfg.wf()
            },
            Err(e) => {
                ||| (alpha_abs_spec(
                    gamma_s as int,
                    pow10(quote_decimals as nat),
                    gamma_m as int,
                    omega_m as int,
                    price_factor_num as int,
                    price_factor_denom as int,
                ) matches Err(e2) && e == e2)
                ||| (alpha_abs_spec(
                    gamma_s as int,
                    pow10(quote_decimals as nat),
                    gamma_m as int,
                    omega_m as int,
                    price_factor_num as int,
                    price_factor_denom as int,
                ) is Ok && !intercept_ok(
                    gamma_m as int,
                    omega_m as int,
                    price_factor_num as int,
                    price_factor_denom as int,
                ) && e == AmmError::BondingCurveInterceptMustBePositive)
            },
        }),
{
    let mint_decimals = pow10_u128(quote_decimals).unwrap();
    let pair = match compute_alpha_abs(
        gamma_s as u128,
        mint_decimals,
        gamma_m as u128,
        omega_m as u128,
        price_factor_num,
        price_factor_denom,
    ) {
        Ok(p) => p,
        Err(e) => {
            return Err(e);
        },
    };
    let alpha_abs = pair.0;
    let decimals = pair.1;
    let beta = match compute_beta(
        gamma_s as u128,
        mint_decimals,
        gamma_m as u128,
        omega_m as u128,
        price_factor_num,
        price_factor_denom,
        decimals,
    ) {
        Ok(b) => b,
        Err(e) => {
            return Err(e);
        },
    };
    proof {
        let gs = gamma_s as int;
        let gsd = pow10(quote_decimals as nat);
        let gm = gamma_m as int;
        let om = omega_m as int;
        let pn = price_factor_num as int;
        let pd = price_factor_denom as int;
        let num = 2 * (gm - scaled_omega(om, pn, pd)) * (gsd * gsd);
        let denom = gs * gs;
        assert(decimals_for_scale(digits(num) - digits(denom)) == Some(decimals as int));
        lemma_decimals_table(digits(num) - digits(denom), decimals as int);
        assert(num * (decimals as int) >= num) by (nonlinear_arith)
            requires
                num >= 0,
                decimals as int >= 1,
        ;
        assert(denom >= 1) by (nonlinear_arith)
            requires
                gs >= 1,
                denom == gs * gs,
        ;
        vstd::arithmetic::div_mod::lemma_div_by_self(denom);
        vstd::arithmetic::div_mod::lemma_div_is_ordered(denom, num * (decimals as int), denom);
        assert(mint_decimals <= u64::MAX as u128) by (nonlinear_arith)
            requires
                (mint_decimals as int) * (mint_decimals as int) <= u128::MAX,
                mint_decimals >= 0,
        ;
        lemma_pow10_pos(quote_decimals as nat);
    }
    Ok(
        Config {
            alpha_abs,
            beta,
            price_factor_num,
            price_factor_denom,
            gamma_s,
            gamma_m,
            omega_m,
            decimals: Decimals { alpha: decimals, beta: decimals, quote: mint_decimals as u64 },
        },
    )
}

impl BoundPool {
    /// The state of a freshly created pool around a derived configuration:
    /// the full curve-asset amount in reserve, an empty quote reserve, no
    /// accrued fees, and the pool unlocked.
    pub fn init(
        config: Config,
        fees: Fees,
        meme_mint: [u8; 32],
        meme_vault: [u8; 32],
        quote_mint: [u8; 32],
        quote_vault: [u8; 32],
        fee_vault_quote: [u8; 32],
        creator_addr: [u8; 32],
        airdropped_tokens: u64,
        vesting_period: i64,
    ) -> (r: BoundPool)
        requires
            config.wf(),
            fees.wf(),
        ensures
            r.wf(),
            r.config == config,
            r.fees == fees,
            r.meme_reserve.tokens == config.gamma_m,
            r.quote_reserve.tokens == 0,
            r.admin_fees_meme == 0,
            r.admin_fees_quote == 0,
            !r.locked,
            r.meme_reserve.mint == meme_mint,
            r.meme_reserve.vault == meme_vault,
            r.quote_reserve.mint == quote_mint,
            r.quote_reserve.vault == quote_vault,
            r.fee_vault_quote == fee_vault_quote,
            r.creator_addr == creator_addr,
            r.airdropped_tokens == airdropped_tokens,
            r.vesting_period == vesting_period,
    {
        BoundPool {
            meme_reserve: Reserve { tokens: config.gamma_m, mint: meme_mint, vault: meme_vault },
            quote_reserve: Reserve { tokens: 0, mint: quote_mint, vault: quote_vault },
            admin_fees_meme: 0,
            admin_fees_quote: 0,
            fee_vault_quote,
            creator_addr,
            fees,
            config,
            airdropped_tokens,
            locked: false,
            vesting_period,
        }
    }
}

} // verus!

verus! {

/// Creation law: parameters whose reserved-asset amount, scaled by the
/// price factor, reaches the curve-asset amount always fail derivation —
/// no pool configuration can arise from them, whatever the other inputs.
pub proof fn lemma_bad_slope_fails_creation(
    gamma_s: int,
    gamma_s_denom: int,
    gamma_m: int,
    omega_m: int,
    pfn: int,
    pfd: int,
)
    requires
        scaled_omega(omega_m, pfn, pfd) >= gamma_m,
    ensures
        alpha_abs_spec(gamma_s, gamma_s_denom, gamma_m, omega_m, pfn, pfd) == Err::<
            (int, int),
            AmmError,
        >(AmmError::BondingCurveMustBeNegativelySloped),
{
}

/// The exact (un-rounded) value both forward strategies round: the curve
/// integral over `[s_a, s_b]`, scaled by the common denominator
/// `2 * alpha_d * beta_d * DECIMALS_S^2`.
pub open spec fn curve_segment_num(
    alpha_abs: int,
    beta: int,
    alpha_d: int,
    beta_d: int,
    s_a: int,
    s_b: int,
) -> int {
    2 * beta * alpha_d * (DECIMALS_S as int) * (s_b - s_a) - alpha_abs * beta_d * (s_b * s_b - s_a
        * s_a)
}

/// Where the fallback forward strategy succeeds, its value is exactly the
/// scaled curve integral divided by the common denominator, rounded down.
pub proof fn lemma_delta_m2_value(
    alpha_abs: int,
    beta: int,
    alpha_d: int,
    beta_d: int,
    s_a: int,
    s_b: int,
)
    requires
        delta_m2_spec(alpha_abs, beta, alpha_d, beta_d, s_a, s_b) is Some,
    ensures
        delta_m2_spec(alpha_abs, beta, alpha_d, beta_d, s_a, s_b)->Some_0 == curve_segment_num(
            alpha_abs,
            beta,
            alpha_d,
            beta_d,
            s_a,
            s_b,
        ) / (2 * alpha_d * beta_d * ((DECIMALS_S as int) * (DECIMALS_S as int))),
        curve_segment_num(alpha_abs, beta, alpha_d, beta_d, s_a, s_b) >= 0,
{
    let s = DECIMALS_S as int;
    let left = (beta * 2) * s * alpha_d * (s_b - s_a);
    let right = alpha_abs * beta_d * (s_b * s_b - s_a * s_a);
    assert(left - right == curve_segment_num(alpha_abs, beta, alpha_d, beta_d, s_a, s_b))
        by (nonlinear_arith)
        requires
            left == (beta * 2) * s * alpha_d * (s_b - s_a),
            right == alpha_abs * beta_d * (s_b * s_b - s_a * s_a),
            curve_segment_num(alpha_abs, beta, alpha_d, beta_d, s_a, s_b) == 2 * beta * alpha_d * s
                * (s_b - s_a) - alpha_abs * beta_d * (s_b * s_b - s_a * s_a),
    ;
}

/// Monotonicity law, exact form: while the curve price stays positive up
/// to the higher level, the exact curve integral strictly grows with the
/// upper reserve level. The rounded solver values inherit this weakly
/// (see `lemma_delta_m2_monotone`); rounding may level single steps, so
/// strictness holds of the exact value, not of every rounded step.
pub proof fn lemma_curve_segment_strictly_increasing(
    alpha_abs: int,
    beta: int,
    alpha_d: int,
    beta_d: int,
    s_a: int,
    s_b1: int,
    s_b2: int,
)
    requires
        s_b1 < s_b2,
        alpha_abs >= 0,
        beta_d >= 0,
        2 * beta * alpha_d * (DECIMALS_S as int) > alpha_abs * beta_d * (s_b1 + s_b2),
    ensures
        curve_segment_num(alpha_abs, beta, alpha_d, beta_d, s_a, s_b1) < curve_segment_num(
            alpha_abs,
            beta,
            alpha_d,
            beta_d,
            s_a,
            s_b2,
        ),
{
    let s = DECIMALS_S as int;
    let n1 = curve_segment_num(alpha_abs, beta, alpha_d, beta_d, s_a, s_b1);
    let n2 = curve_segment_num(alpha_abs, beta, alpha_d, beta_d, s_a, s_b2);
    assert(n2 - n1 == (s_b2 - s_b1) * (2 * beta * alpha_d * s - alpha_abs * beta_d * (s_b1
        + s_b2))) by (nonlinear_arith)
        requires
            n1 == 2 * beta * alpha_d * s * (s_b1 - s_a) - alpha_abs * beta_d * (s_b1 * s_b1 - s_a
                * s_a),
            n2 == 2 * beta * alpha_d * s * (s_b2 - s_a) - alpha_abs * beta_d * (s_b2 * s_b2 - s_a
                * s_a),
    ;
    assert((s_b2 - s_b1) * (2 * beta * alpha_d * s - alpha_abs * beta_d * (s_b1 + s_b2)) > 0)
        by (nonlinear_arith)
        requires
            s_b2 - s_b1 >= 1,
            2 * beta * alpha_d * s - alpha_abs * beta_d * (s_b1 + s_b2) >= 1,
    ;
}

/// Monotonicity law, rounded form: where the fallback strategy succeeds
/// at two upper levels and the price stays positive, the rounded asset
/// output never decreases as the upper reserve level grows.
pub proof fn lemma_delta_m2_monotone(
    alpha_abs: int,
    beta: int,
    alpha_d: int,
    beta_d: int,
    s_a: int,
    s_b1: int,
    s_b2: int,
)
    requires
        alpha_d >= 1,
        beta_d >= 1,
        alpha_abs >= 0,
        s_b1 < s_b2,
        delta_m2_spec(alpha_abs, beta, alpha_d, beta_d, s_a, s_b1) is Some,
        delta_m2_spec(alpha_abs, beta, alpha_d, beta_d, s_a, s_b2) is Some,
        2 * beta * alpha_d * (DECIMALS_S as int) > alpha_abs * beta_d * (s_b1 + s_b2),
    ensures
        delta_m2_spec(alpha_abs, beta, alpha_d, beta_d, s_a, s_b1)->Some_0 <= delta_m2_spec(
            alpha_abs,
            beta,
            alpha_d,
            beta_d,
            s_a,
            s_b2,
        )->Some_0,
{
    let s = DECIMALS_S as int;
    let denom = 2 * alpha_d * beta_d * (s * s);
    lemma_delta_m2_value(alpha_abs, beta, alpha_d, beta_d, s_a, s_b1);
    lemma_delta_m2_value(alpha_abs, beta, alpha_d, beta_d, s_a, s_b2);
    lemma_curve_segment_strictly_increasing(alpha_abs, beta, alpha_d, beta_d, s_a, s_b1, s_b2);
    assert(denom >= 1) by (nonlinear_arith)
        requires
            alpha_d >= 1,
            beta_d >= 1,
            s >= 1,
            denom == 2 * alpha_d * beta_d * (s * s),
    ;
    vstd::arithmetic::div_mod::lemma_div_is_ordered(
        curve_segment_num(alpha_abs, beta, alpha_d, beta_d, s_a, s_b1),
        curve_segment_num(alpha_abs, beta, alpha_d, beta_d, s_a, s_b2),
        denom,
    );
}

/// Monotonicity law, strict rounded form: where the exact curve integral
/// grows by at least the common denominator between two upper levels, the
/// fallback strategy's rounded value strictly increases.
pub proof fn lemma_delta_m2_strict_step(
    alpha_abs: int,
    beta: int,
    alpha_d: int,
    beta_d: int,
    s_a: int,
    s_b1: int,
    s_b2: int,
)
    requires
        alpha_d >= 1,
        beta_d >= 1,
        delta_m2_spec(alpha_abs, beta, alpha_d, beta_d, s_a, s_b1) is Some,
        delta_m2_spec(alpha_abs, beta, alpha_d, beta_d, s_a, s_b2) is Some,
        curve_segment_num(alpha_abs, beta, alpha_d, beta_d, s_a, s_b2) >= curve_segment_num(
            alpha_abs,
            beta,
            alpha_d,
            beta_d,
            s_a,
            s_b1,
        ) + 2 * alpha_d * beta_d * ((DECIMALS_S as int) * (DECIMALS_S as int)),
    ensures
        delta_m2_spec(alpha_abs, beta, alpha_d, beta_d, s_a, s_b1)->Some_0 < delta_m2_spec(
            alpha_abs,
            beta,
            alpha_d,
            beta_d,
            s_a,
            s_b2,
        )->Some_0,
{
    let s = DECIMALS_S as int;
    let denom = 2 * alpha_d * beta_d * (s * s);
    let n1 = curve_segment_num(alpha_abs, beta, alpha_d, beta_d, s_a, s_b1);
    let n2 = curve_segment_num(alpha_abs, beta, alpha_d, beta_d, s_a, s_b2);
    lemma_delta_m2_value(alpha_abs, beta, alpha_d, beta_d, s_a, s_b1);
    lemma_delta_m2_value(alpha_abs, beta, alpha_d, beta_d, s_a, s_b2);
    assert(denom >= 1) by (nonlinear_arith)
        requires
            alpha_d >= 1,
            beta_d >= 1,
            s >= 1,
            denom == 2 * alpha_d * beta_d * (s * s),
    ;
    vstd::arithmetic::div_mod::lemma_div_plus_one(n1, denom);
    vstd::arithmetic::div_mod::lemma_div_is_ordered(denom + n1, n2, denom);
}

/// Fee conservation law for a buy: the input-side fee is the fee rate's
/// floor share of the gross input; a buy not clamped by the quote
/// headroom satisfies `admin_fee_in + amount_in == gross input` exactly;
/// and the net output plus the output-side fee reassemble the gross
/// priced output.
pub proof fn lemma_buy_fee_conservation(p: BoundPool, delta_s: u64, min_delta_m: u64)
    requires
        p.wf(),
        p.buy_swap_spec(delta_s, min_delta_m) is Ok,
    ensures
        ({
            let sw = p.buy_swap_spec(delta_s, min_delta_m)->Ok_0;
            let fee_in = fee_amount_spec(delta_s as int, p.fees.fee_quote_percent as int);
            let max_in = p.config.gamma_s - p.quote_reserve.tokens;
            let gross = if delta_s - fee_in >= max_in {
                p.meme_reserve.tokens as int
            } else {
                delta_m_u64_spec(
                    p.config,
                    p.quote_reserve.tokens as int,
                    p.quote_reserve.tokens + min_int(delta_s - fee_in, max_in),
                )->Some_0
            };
            &&& sw.admin_fee_in == fee_in
            &&& sw.admin_fee_in + sw.amount_in <= delta_s
            &&& (delta_s - fee_in < max_in ==> sw.admin_fee_in + sw.amount_in == delta_s)
            &&& sw.amount_out + sw.admin_fee_out == gross
        }),
{
    lemma_fee_le_amount(delta_s as int, p.fees.fee_quote_percent as int);
    let fee_in = fee_amount_spec(delta_s as int, p.fees.fee_quote_percent as int);
    let max_in = p.config.gamma_s - p.quote_reserve.tokens;
    let is_max = delta_s - fee_in >= max_in;
    let gross = if is_max {
        p.meme_reserve.tokens as int
    } else {
        delta_m_u64_spec(
            p.config,
            p.quote_reserve.tokens as int,
            p.quote_reserve.tokens + min_int(delta_s - fee_in, max_in),
        )->Some_0
    };
    lemma_fee_le_amount(gross, p.fees.fee_meme_percent as int);
}

/// Fee conservation law for a sell: the input-side fee is twice the fee
/// rate's floor share of the gross input (the settled behaviour's doubled
/// fee); a sell not clamped by the curve-asset headroom satisfies
/// `admin_fee_in + amount_in == gross input` exactly; and the net output
/// plus the output-side fee reassemble the gross priced output.
pub proof fn lemma_sell_fee_conservation(p: BoundPool, delta_m: u64, min_delta_s: u64)
    requires
        p.wf(),
        p.sell_swap_spec(delta_m, min_delta_s) is Ok,
    ensures
        ({
            let sw = p.sell_swap_spec(delta_m, min_delta_s)->Ok_0;
            let fee_in = 2 * fee_amount_spec(delta_m as int, p.fees.fee_meme_percent as int);
            let max_in = p.config.gamma_m - p.meme_reserve.tokens;
            let gross = if delta_m - fee_in >= max_in {
                p.quote_reserve.tokens as int
            } else {
                delta_s_u64_spec(
                    p.config,
                    p.quote_reserve.tokens as int,
                    min_int(delta_m - fee_in, max_in),
                )->Some_0
            };
            &&& sw.admin_fee_in == fee_in
            &&& sw.admin_fee_in + sw.amount_in <= delta_m
            &&& (delta_m - fee_in < max_in ==> sw.admin_fee_in + sw.amount_in == delta_m)
            &&& sw.amount_out + sw.admin_fee_out == gross
        }),
{
    lemma_double_fee_le_amount(delta_m as int, p.fees.fee_meme_percent as int);
    let fee_in = 2 * fee_amount_spec(delta_m as int, p.fees.fee_meme_percent as int);
    let max_in = p.config.gamma_m - p.meme_reserve.tokens;
    let is_max = delta_m - fee_in >= max_in;
    let gross = if is_max {
        p.quote_reserve.tokens as int
    } else {
        delta_s_u64_spec(
            p.config,
            p.quote_reserve.tokens as int,
            min_int(delta_m - fee_in, max_in),
        )->Some_0
    };
    lemma_double_fee_le_amount(gross, p.fees.fee_quote_percent as int);
}

/// Headroom clamp law: a buy whose fee-adjusted input meets or exceeds
/// the remaining quote headroom settles at exactly that headroom and pays
/// out the pool's whole curve-asset reserve (before the output-side fee),
/// without consulting the solver.
pub proof fn lemma_buy_headroom_clamp(p: BoundPool, delta_s: u64, min_delta_m: u64)
    requires
        p.wf(),
        p.buy_swap_spec(delta_s, min_delta_m) is Ok,
        delta_s - fee_amount_spec(delta_s as int, p.fees.fee_quote_percent as int)
            >= p.config.gamma_s - p.quote_reserve.tokens,
    ensures
        ({
            let sw = p.buy_swap_spec(delta_s, min_delta_m)->Ok_0;
            &&& sw.amount_out + sw.admin_fee_out == p.meme_reserve.tokens
            &&& sw.amount_in == p.config.gamma_s - p.quote_reserve.tokens
        }),
{
    lemma_fee_le_amount(delta_s as int, p.fees.fee_quote_percent as int);
    lemma_fee_le_amount(p.meme_reserve.tokens as int, p.fees.fee_meme_percent as int);
}

} // verus!

verus! {

/// Strategy agreement law: where both forward strategies succeed, the
/// fallback's single-denominator value equals the primary's two-term
/// value or falls exactly one base unit below it — the rearrangement
/// changes rounding by at most one unit, never the price.
pub proof fn lemma_forward_strategies_agree(
    alpha_abs: int,
    beta: int,
    alpha_d: int,
    beta_d: int,
    s_a: int,
    s_b: int,
)
    requires
        alpha_abs >= 0,
        beta >= 0,
        alpha_d >= 0,
        beta_d >= 0,
        0 <= s_a <= s_b,
        delta_m1_spec(alpha_abs, beta, alpha_d, beta_d, s_a, s_b) is Some,
        delta_m2_spec(alpha_abs, beta, alpha_d, beta_d, s_a, s_b) is Some,
    ensures
        delta_m2_spec(alpha_abs, beta, alpha_d, beta_d, s_a, s_b)->Some_0 <= delta_m1_spec(
            alpha_abs,
            beta,
            alpha_d,
            beta_d,
            s_a,
            s_b,
        )->Some_0,
        delta_m1_spec(alpha_abs, beta, alpha_d, beta_d, s_a, s_b)->Some_0 <= delta_m2_spec(
            alpha_abs,
            beta,
            alpha_d,
            beta_d,
            s_a,
            s_b,
        )->Some_0 + 1,
{
    let s = DECIMALS_S as int;
    let delta = s_b - s_a;
    let a_num = delta * beta;
    let a_den = beta_d * s;
    let aa = a_num / a_den;
    let sq = s_b * s_b - s_a * s_a;
    let b_num = sq * alpha_abs;
    let b_den = (s * s) * (2 * alpha_d);
    let bb = (b_num / (s * s)) / (2 * alpha_d);
    let m1 = aa - bb;
    let ll = (beta * 2) * s * alpha_d * delta;
    let rr = alpha_abs * beta_d * sq;
    let dd = 2 * alpha_d * beta_d * (s * s);
    let nn = ll - rr;
    let m2 = nn / dd;
    assert(delta_m1_spec(alpha_abs, beta, alpha_d, beta_d, s_a, s_b)->Some_0 == m1);
    assert(delta_m2_spec(alpha_abs, beta, alpha_d, beta_d, s_a, s_b)->Some_0 == m2);
    assert(a_den >= 0) by (nonlinear_arith)
        requires
            beta_d >= 0,
            s >= 0,
            a_den == beta_d * s,
    ;
    assert(a_den >= 1);
    assert(alpha_d >= 1);
    assert(beta_d >= 1) by (nonlinear_arith)
        requires
            a_den == beta_d * s,
            a_den >= 1,
            beta_d >= 0,
    ;
    assert(b_den >= 1) by (nonlinear_arith)
        requires
            s >= 1,
            alpha_d >= 1,
            b_den == (s * s) * (2 * alpha_d),
    ;
    assert(dd >= 1) by (nonlinear_arith)
        requires
            s >= 1,
            alpha_d >= 1,
            beta_d >= 1,
            dd == 2 * alpha_d * beta_d * (s * s),
    ;
    assert(sq >= 0);
    assert(b_num >= 0) by (nonlinear_arith)
        requires
            sq >= 0,
            alpha_abs >= 0,
            b_num == sq * alpha_abs,
    ;
    assert(s * s >= 1) by (nonlinear_arith)
        requires
            s >= 1,
    ;
    vstd::arithmetic::div_mod::lemma_div_denominator(b_num, s * s, 2 * alpha_d);
    assert(bb == b_num / b_den);
    let ra = a_num % a_den;
    let rb = b_num % b_den;
    vstd::arithmetic::div_mod::lemma_fundamental_div_mod(a_num, a_den);
    vstd::arithmetic::div_mod::lemma_fundamental_div_mod(b_num, b_den);
    assert(a_num == a_den * aa + ra);
    assert(b_num == b_den * bb + rb);
    assert(0 <= ra < a_den);
    assert(0 <= rb < b_den);
    let k1 = 2 * alpha_d * s;
    let k2 = beta_d;
    assert(k1 >= 1) by (nonlinear_arith)
        requires
            alpha_d >= 1,
            s >= 1,
            k1 == 2 * alpha_d * s,
    ;
    assert(ll == a_num * k1) by (nonlinear_arith)
        requires
            ll == (beta * 2) * s * alpha_d * delta,
            a_num == delta * beta,
            k1 == 2 * alpha_d * s,
    ;
    assert(rr == b_num * k2) by (nonlinear_arith)
        requires
            rr == alpha_abs * beta_d * sq,
            b_num == sq * alpha_abs,
            k2 == beta_d,
    ;
    assert(a_den * k1 == dd) by (nonlinear_arith)
        requires
            a_den == beta_d * s,
            k1 == 2 * alpha_d * s,
            dd == 2 * alpha_d * beta_d * (s * s),
    ;
    assert(b_den * k2 == dd) by (nonlinear_arith)
        requires
            b_den == (s * s) * (2 * alpha_d),
            k2 == beta_d,
            dd == 2 * alpha_d * beta_d * (s * s),
    ;
    assert(ll == dd * aa + ra * k1) by (nonlinear_arith)
        requires
            ll == a_num * k1,
            a_num == a_den * aa + ra,
            a_den * k1 == dd,
    ;
    assert(rr == dd * bb + rb * k2) by (nonlinear_arith)
        requires
            rr == b_num * k2,
            b_num == b_den * bb + rb,
            b_den * k2 == dd,
    ;
    assert(nn == dd * m1 + ra * k1 - rb * k2) by (nonlinear_arith)
        requires
            nn == ll - rr,
            ll == dd * aa + ra * k1,
            rr == dd * bb + rb * k2,
            m1 == aa - bb,
    ;
    assert(ra * k1 <= dd - k1) by (nonlinear_arith)
        requires
            0 <= ra <= a_den - 1,
            k1 >= 1,
            a_den * k1 == dd,
    ;
    assert(rb * k2 >= 0) by (nonlinear_arith)
        requires
            rb >= 0,
            k2 >= 1,
    ;
    assert(dd * (m1 + 1) == dd * m1 + dd) by (nonlinear_arith);
    assert(nn < dd * (m1 + 1));
    assert(nn >= 0);
    vstd::arithmetic::div_mod::lemma_multiply_divide_lt(nn, dd, m1 + 1);
    assert(m2 <= m1);
    assert(ra * k1 >= 0) by (nonlinear_arith)
        requires
            ra >= 0,
            k1 >= 1,
    ;
    assert(rb * k2 <= dd - k2) by (nonlinear_arith)
        requires
            0 <= rb <= b_den - 1,
            k2 >= 1,
            b_den * k2 == dd,
    ;
    assert(dd * (m1 - 1) == dd * m1 - dd) by (nonlinear_arith);
    assert(nn >= dd * (m1 - 1) + 1);
    if m1 - 1 >= 0 {
        assert(dd * (m1 - 1) >= 0) by (nonlinear_arith)
            requires
                dd >= 1,
                m1 - 1 >= 0,
        ;
        vstd::arithmetic::div_mod::lemma_div_is_ordered(dd * (m1 - 1), nn, dd);
        vstd::arithmetic::div_mod::lemma_div_multiples_vanish(m1 - 1, dd);
        assert(m2 >= m1 - 1);
    } else {
        vstd::arithmetic::div_mod::lemma_div_pos_is_pos(nn, dd);
    }
}

} // verus!

verus! {

/// Where the checked product of four factors exists, it is their plain
/// product.
proof fn lemma_prod4_value(a: int, b: int, c: int, d: int)
    ensures
        (checked_prod(seq![a, b, c, d]) matches Some(p) ==> p == a * b * c * d),
{
    let s4 = seq![a, b, c, d];
    assert(s4.drop_last() =~= seq![a, b, c]);
    assert(seq![a, b, c].drop_last() =~= seq![a, b]);
    assert(seq![a, b].drop_last() =~= seq![a]);
    assert(seq![a].drop_last() =~= Seq::<int>::empty());
    assert(checked_prod(Seq::<int>::empty()) == Some(1int));
    if checked_prod(s4) is Some {
        assert(checked_prod(seq![a, b, c]) is Some);
        assert(checked_prod(seq![a, b]) is Some);
        assert(checked_prod(seq![a]) is Some);
        assert(checked_prod(seq![a])->Some_0 == 1 * a);
        assert(checked_prod(seq![a, b])->Some_0 == (1 * a) * b);
        assert(checked_prod(seq![a, b, c])->Some_0 == ((1 * a) * b) * c);
        assert(checked_prod(s4)->Some_0 == (((1 * a) * b) * c) * d);
    }
}

/// Monotonicity law for the inverse solver, base-scale form: at a fixed
/// reserve level, where the pipeline succeeds for two asset deltas and
/// the discriminant fits the working width without a precision retry,
/// the recovered quote amount is ordered as the deltas are. (Across a
/// retry the coarser scale re-rounds, so this is stated of the common,
/// unretried path.)
pub proof fn lemma_delta_s_monotone(
    alpha_abs: int,
    beta: int,
    alpha_d: int,
    beta_d: int,
    s_b: int,
    dm1: int,
    dm2: int,
)
    requires
        alpha_abs >= 0,
        beta >= 0,
        alpha_d >= 0,
        beta_d >= 0,
        s_b >= 0,
        0 <= dm1 <= dm2,
        delta_s_spec(alpha_abs, beta, alpha_d, beta_d, s_b, dm1) is Some,
        delta_s_spec(alpha_abs, beta, alpha_d, beta_d, s_b, dm2) is Some,
        compute_a_step(
            2 * beta * alpha_d * (DECIMALS_S as int) - 2 * alpha_abs * s_b * beta_d,
            alpha_d,
            8 * dm1 * alpha_abs,
            alpha_d * beta_d * (DECIMALS_S as int),
            1,
        ) is Some,
        compute_a_step(
            2 * beta * alpha_d * (DECIMALS_S as int) - 2 * alpha_abs * s_b * beta_d,
            alpha_d,
            8 * dm2 * alpha_abs,
            alpha_d * beta_d * (DECIMALS_S as int),
            1,
        ) is Some,
    ensures
        delta_s_spec(alpha_abs, beta, alpha_d, beta_d, s_b, dm1)->Some_0 <= delta_s_spec(
            alpha_abs,
            beta,
            alpha_d,
            beta_d,
            s_b,
            dm2,
        )->Some_0,
{
    let s = DECIMALS_S as int;
    let uu = 2 * beta * alpha_d * s - 2 * alpha_abs * s_b * beta_d;
    let vv = alpha_d * beta_d * s;
    let w1 = 8 * dm1 * alpha_abs;
    let w2 = 8 * dm2 * alpha_abs;
    assert(w1 <= w2) by (nonlinear_arith)
        requires
            0 <= dm1 <= dm2,
            alpha_abs >= 0,
            w1 == 8 * dm1 * alpha_abs,
            w2 == 8 * dm2 * alpha_abs,
    ;
    assert(uu >= 0);
    assert(vv >= 0) by (nonlinear_arith)
        requires
            alpha_d >= 0,
            beta_d >= 0,
            s >= 0,
            vv == alpha_d * beta_d * s,
    ;
    assert(w1 >= 0) by (nonlinear_arith)
        requires
            dm1 >= 0,
            alpha_abs >= 0,
            w1 == 8 * dm1 * alpha_abs,
    ;
    // The discriminant at scale one, for each delta.
    let sum1 = (uu / 1) * uu * alpha_d + (vv / 1) * vv * w1;
    let sum2 = (uu / 1) * uu * alpha_d + (vv / 1) * vv * w2;
    assert(uu / 1 == uu);
    assert(vv / 1 == vv);
    assert(vv * vv * w1 <= vv * vv * w2) by (nonlinear_arith)
        requires
            vv >= 0,
            0 <= w1 <= w2,
    ;
    assert(uu * uu * alpha_d >= 0) by (nonlinear_arith)
        requires
            uu >= 0,
            alpha_d >= 0,
    ;
    assert(vv * vv * w1 >= 0) by (nonlinear_arith)
        requires
            vv >= 0,
            w1 >= 0,
    ;
    assert(0 <= sum1 <= sum2);
    lemma_sqrt_ordered(sum1, sum2);
    // With no retry, the discriminant term is the root at scale one.
    assert(is_sqrt(1, 1));
    lemma_sqrt_unique(1, 1);
    let aa1 = sqrt_floor(sum1) * sqrt_floor(1);
    let aa2 = sqrt_floor(sum2) * sqrt_floor(1);
    assert(compute_a_step(uu, alpha_d, w1, vv, 1) == Some(aa1));
    assert(compute_a_step(uu, alpha_d, w2, vv, 1) == Some(aa2));
    assert(compute_a_spec(uu, alpha_d, w1, vv) == Some(aa1));
    assert(compute_a_spec(uu, alpha_d, w2, vv) == Some(aa2));
    assert(aa1 <= aa2);
    lemma_sqrt_floor(sum1);
    assert(aa1 >= 0) by (nonlinear_arith)
        requires
            sqrt_floor(sum1) >= 0,
            aa1 == sqrt_floor(sum1) * 1,
    ;
    // Both pipelines share the same subtrahend and denominator; only the
    // discriminant factor of the minuend grows.
    let bb = sqrt_floor(vv * vv * alpha_d);
    let ds = seq![2, alpha_abs, bb, vv];
    let n1 = seq![s, alpha_d, aa1, vv];
    let n2 = seq![s, alpha_d, aa2, vv];
    let left1 = mul_div_spec(n1, ds);
    let left2 = mul_div_spec(n2, ds);
    let right = mul_div_spec(seq![s, alpha_d, uu, bb], ds);
    lemma_prod4_value(s, alpha_d, aa1, vv);
    lemma_prod4_value(s, alpha_d, aa2, vv);
    assert(checked_prod(n1) is Some);
    assert(checked_prod(n2) is Some);
    assert(s * alpha_d * aa1 * vv <= s * alpha_d * aa2 * vv) by (nonlinear_arith)
        requires
            s >= 1,
            alpha_d >= 0,
            vv >= 0,
            0 <= aa1 <= aa2,
    ;
    let dprod = checked_prod(ds)->Some_0;
    assert(dprod > 0);
    vstd::arithmetic::div_mod::lemma_div_is_ordered(
        s * alpha_d * aa1 * vv,
        s * alpha_d * aa2 * vv,
        dprod,
    );
    assert(left1->Some_0 <= left2->Some_0);
}

} // verus!

verus! {

/// Settlement law: the net input of a priced buy never pushes the quote
/// reserve past the curve's quote target, so the clamp keeps the pool
/// invariant's quote bound across settlement.
pub proof fn lemma_buy_respects_quote_target(p: BoundPool, delta_s: u64, min_delta_m: u64)
    requires
        p.wf(),
        p.buy_swap_spec(delta_s, min_delta_m) is Ok,
    ensures
        p.quote_reserve.tokens + p.buy_swap_spec(delta_s, min_delta_m)->Ok_0.amount_in
            <= p.config.gamma_s,
{
    lemma_fee_le_amount(delta_s as int, p.fees.fee_quote_percent as int);
}

/// Settlement law: the net input of a priced sell never pushes the
/// curve-asset reserve past the curve-asset target, so the clamp keeps
/// the pool invariant's curve-asset bound across settlement.
pub proof fn lemma_sell_respects_meme_target(p: BoundPool, delta_m: u64, min_delta_s: u64)
    requires
        p.wf(),
        p.sell_swap_spec(delta_m, min_delta_s) is Ok,
    ensures
        p.meme_reserve.tokens + p.sell_swap_spec(delta_m, min_delta_s)->Ok_0.amount_in
            <= p.config.gamma_m,
{
    lemma_double_fee_le_amount(delta_m as int, p.fees.fee_meme_percent as int);
}

} // verus!
