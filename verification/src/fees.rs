//! Admin fee rates and fee-amount computation.

use vstd::prelude::*;

verus! {

/// Denominator of every fee rate: a rate of `FEE_PRECISION` would be 100%.
pub const FEE_PRECISION: u64 = 1_000_000_000;

/// The two admin fee rates of a pool, fixed at creation: one for
/// curve-asset flows and one for quote-asset flows, each a fraction of
/// [`FEE_PRECISION`].
#[derive(Clone, Copy, Debug, PartialEq, Eq, Structural)]
pub struct Fees {
    /// Fee rate applied to curve-asset amounts.
    pub fee_meme_percent: u64,
    /// Fee rate applied to quote-asset amounts.
    pub fee_quote_percent: u64,
}

/// The admin fee on `amount` at rate `percent`: the rate fraction of the
/// amount, rounded down.
pub open spec fn fee_amount_spec(amount: int, percent: int) -> int {
    (amount * percent) / (FEE_PRECISION as int)
}

/// The fee result as the callers see it: absent only when the exact fee
/// does not fit in 64 bits (possible only for rates above 100%).
pub open spec fn fee_amount_opt(amount: int, percent: int) -> Option<int> {
    if fee_amount_spec(amount, percent) <= u64::MAX {
        Some(fee_amount_spec(amount, percent))
    } else {
        None
    }
}

/// A fee at a rate of at most 100% never exceeds the amount itself.
pub proof fn lemma_fee_le_amount(amount: int, percent: int)
    requires
        0 <= amount,
        0 <= percent <= FEE_PRECISION,
    ensures
        0 <= fee_amount_spec(amount, percent) <= amount,
{
    let p = FEE_PRECISION as int;
    assert(amount * percent <= amount * p) by (nonlinear_arith)
        requires
            0 <= amount,
            0 <= percent <= p,
    ;
    assert(amount * p / p == amount) by (nonlinear_arith)
        requires
            p > 0,
            0 <= amount,
    ;
    vstd::arithmetic::div_mod::lemma_div_is_ordered(
        amount * percent,
        amount * p,
        p,
    );
    assert(amount * percent >= 0) by (nonlinear_arith)
        requires
            0 <= amount,
            0 <= percent,
    ;
    vstd::arithmetic::div_mod::lemma_div_pos_is_pos(amount * percent, p);
}

/// A fee at a rate of at most 50%, even taken twice, stays within the amount.
pub proof fn lemma_double_fee_le_amount(amount: int, percent: int)
    requires
        0 <= amount,
        0 <= percent,
        2 * percent <= FEE_PRECISION,
    ensures
        0 <= 2 * fee_amount_spec(amount, percent) <= amount,
{
    let p = FEE_PRECISION as int;
    let f = fee_amount_spec(amount, percent);
    lemma_fee_le_amount(amount, percent);
    vstd::arithmetic::div_mod::lemma_fundamental_div_mod(amount * percent, p);
    assert(p * f <= amount * percent);
    assert(2 * (amount * percent) <= amount * p) by (nonlinear_arith)
        requires
            0 <= amount,
            0 <= percent,
            2 * percent <= p,
    ;
    assert(2 * (p * f) <= amount * p);
    assert(2 * f <= amount) by (nonlinear_arith)
        requires
            2 * (p * f) <= amount * p,
            p > 0,
    ;
}

impl Fees {
    /// Both rates low enough that even the doubled fee of the sell
    /// direction fits inside the amount it is taken from.
    pub open spec fn wf(self) -> bool {
        &&& 2 * self.fee_meme_percent <= FEE_PRECISION
        &&& 2 * self.fee_quote_percent <= FEE_PRECISION
    }

    /// Admin fee taken from a curve-asset amount.
    pub fn get_fee_meme_amount(&self, amount: u64) -> (r: Option<u64>)
        ensures
            (match r {
                Some(f) => fee_amount_opt(amount as int, self.fee_meme_percent as int) == Some(f as int),
                None => fee_amount_opt(amount as int, self.fee_meme_percent as int) is None,
            }),
    {
        fee_amount(amount, self.fee_meme_percent)
    }

    /// Admin fee taken from a quote-asset amount.
    pub fn get_fee_quote_amount(&self, amount: u64) -> (r: Option<u64>)
        ensures
            (match r {
                Some(f) => fee_amount_opt(amount as int, self.fee_quote_percent as int) == Some(f as int),
                None => fee_amount_opt(amount as int, self.fee_quote_percent as int) is None,
            }),
    {
        fee_amount(amount, self.fee_quote_percent)
    }
}

/// Computes `floor(amount * percent / FEE_PRECISION)`, absent when the
/// result does not fit in 64 bits.
fn fee_amount(amount: u64, percent: u64) -> (r: Option<u64>)
    ensures
        (match r {
            Some(f) => fee_amount_opt(amount as int, percent as int) == Some(f as int),
            None => fee_amount_opt(amount as int, percent as int) is None,
        }),
{
    proof {
        assert(amount * percent <= u64::MAX * (u64::MAX as int)) by (nonlinear_arith)
            requires
                0 <= amount <= u64::MAX,
                0 <= percent <= u64::MAX,
        ;
    }
    let wide: u128 = (amount as u128) * (percent as u128) / (FEE_PRECISION as u128);
    if wide <= u64::MAX as u128 {
        Some(wide as u64)
    } else {
        None
    }
}

} // verus!
