//! Failure conditions of the pricing engine.

use vstd::prelude::*;

verus! {

/// Everything a pricing or settlement call can reject.
///
/// The variants fall into three groups: input validation (`NoZeroTokens`,
/// `PoolIsLocked`), curve-domain failures fatal to the call (`MathOverflow`
/// and the three creation-time checks), and the economic `SlippageExceeded`
/// rejection.
#[derive(Clone, Copy, Debug, PartialEq, Eq, Structural)]
pub enum AmmError {
    /// A swap of zero tokens was requested.
    NoZeroTokens,
    /// The pool has depleted its curve-asset reserve and accepts no swaps.
    PoolIsLocked,
    /// The computed output fell below the caller's minimum.
    SlippageExceeded,
    /// Both solver strategies exhausted the 256-bit working width.
    MathOverflow,
    /// At creation, the derived slope ratio was not above one.
    EGammaSAboveRelativeLimit,
    /// At creation, the magnitude ratio left no usable decimal precision.
    EScaleTooLow,
    /// The price curve would not be negatively sloped.
    BondingCurveMustBeNegativelySloped,
    /// The price curve's intercept would not be positive.
    BondingCurveInterceptMustBePositive,
}

} // verus!
