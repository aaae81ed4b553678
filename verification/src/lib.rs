//! Pricing and settlement core of a bonding-curve token launch pool.
//!
//! The library derives the constants of a negatively sloped linear price
//! curve at pool creation, converts between quote-amount and asset-amount
//! deltas with exact 256-bit fixed-point arithmetic, applies admin fees,
//! enforces slippage bounds, tracks reserve bookkeeping and the pool lock
//! state, and computes reward-point accruals.

pub mod bound;
pub mod err;
pub mod fees;
pub mod math;
pub mod points;
pub mod wide;

pub use bound::BoundPool;
pub use bound::Config;
pub use bound::Decimals;
pub use bound::Reserve;
pub use bound::SwapAmount;
pub use bound::DECIMALS_S;
pub use err::AmmError;
pub use fees::Fees;
pub use fees::FEE_PRECISION;
pub use points::PointsEpoch;
pub use wide::Wide;
