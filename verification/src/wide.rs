//! 256-bit unsigned arithmetic for the curve solvers.
//!
//! Curve computations multiply several 64- to 128-bit quantities before
//! dividing, so they are carried out on 256-bit values.  A [`Wide`] holds the
//! four 64-bit limbs of such a value, least significant limb first — the same
//! representation `spl_math::uint::U256` uses — and every arithmetic step is
//! delegated to that type through the trusted wrappers below.  Each wrapper
//! converts limbs to a `U256`, makes one call, and converts the limbs of the
//! result back.

use vstd::prelude::*;

verus! {

/// An unsigned 256-bit integer as four 64-bit limbs, least significant first.
#[derive(Clone, Copy, Debug)]
pub struct Wide {
    pub limbs: [u64; 4],
}

/// 2^64, the weight of the second limb.
pub open spec fn pow64() -> int {
    0x1_0000_0000_0000_0000
}

/// 2^128, the weight of the third limb.
pub open spec fn pow128() -> int {
    pow64() * pow64()
}

/// 2^192, the weight of the fourth limb.
pub open spec fn pow192() -> int {
    pow64() * pow64() * pow64()
}

/// 2^256, the first value a `Wide` cannot hold.
pub open spec fn pow256() -> int {
    pow64() * pow64() * pow64() * pow64()
}

impl Wide {
    /// The number this `Wide` stands for.
    pub open spec fn value(&self) -> int {
        self.limbs@[0] + self.limbs@[1] * pow64() + self.limbs@[2] * pow128() + self.limbs@[3]
            * pow192()
    }
}

/// Every `Wide` holds a value in `[0, 2^256)`.
pub proof fn lemma_wide_value_bounds(w: &Wide)
    ensures
        0 <= w.value() < pow256(),
{
    assert(w.limbs@[0] < pow64() && w.limbs@[1] < pow64() && w.limbs@[2] < pow64() && w.limbs@[3]
        < pow64());
    assert(w.limbs@[1] * pow64() <= (pow64() - 1) * pow64()) by (nonlinear_arith)
        requires
            w.limbs@[1] <= pow64() - 1,
    ;
    assert(w.limbs@[2] * pow128() <= (pow64() - 1) * pow128()) by (nonlinear_arith)
        requires
            w.limbs@[2] <= pow64() - 1,
    ;
    assert(w.limbs@[3] * pow192() <= (pow64() - 1) * pow192()) by (nonlinear_arith)
        requires
            w.limbs@[3] <= pow64() - 1,
    ;
    assert(w.limbs@[1] * pow64() >= 0) by (nonlinear_arith)
        requires
            w.limbs@[1] >= 0,
    ;
    assert(w.limbs@[2] * pow128() >= 0) by (nonlinear_arith)
        requires
            w.limbs@[2] >= 0,
    ;
    assert(w.limbs@[3] * pow192() >= 0) by (nonlinear_arith)
        requires
            w.limbs@[3] >= 0,
    ;
}

/// Relies on `spl_math::uint::U256::from::<u128>`: splits the argument into
/// little-endian 64-bit limbs.
#[verifier::external_body]
pub fn wide_from_u128(x: u128) -> (r: Wide)
    ensures
        r.value() == x,
{
    Wide { limbs: spl_math::uint::U256::from(x).0 }
}

/// Relies on `spl_math::uint::U256::as_u128`: returns the low 128 bits; the
/// precondition rules out the values on which that call panics.
#[verifier::external_body]
pub fn wide_as_u128(a: &Wide) -> (r: u128)
    requires
        a.value() < pow128(),
    ensures
        r == a.value(),
{
    spl_math::uint::U256(a.limbs).as_u128()
}

/// Relies on `spl_math::uint::U256::checked_add`: the exact sum, or `None`
/// when it does not fit in 256 bits.
#[verifier::external_body]
pub fn wide_checked_add(a: &Wide, b: &Wide) -> (r: Option<Wide>)
    ensures
        (match r {
            Some(c) => a.value() + b.value() < pow256() && c.value() == a.value() + b.value(),
            None => a.value() + b.value() >= pow256(),
        }),
{
    match spl_math::uint::U256(a.limbs).checked_add(spl_math::uint::U256(b.limbs)) {
        Some(c) => Some(Wide { limbs: c.0 }),
        None => None,
    }
}

/// Relies on `spl_math::uint::U256::checked_sub`: the exact difference, or
/// `None` when it would be negative.
#[verifier::external_body]
pub fn wide_checked_sub(a: &Wide, b: &Wide) -> (r: Option<Wide>)
    ensures
        (match r {
            Some(c) => a.value() >= b.value() && c.value() == a.value() - b.value(),
            None => a.value() < b.value(),
        }),
{
    match spl_math::uint::U256(a.limbs).checked_sub(spl_math::uint::U256(b.limbs)) {
        Some(c) => Some(Wide { limbs: c.0 }),
        None => None,
    }
}

/// Relies on `spl_math::uint::U256::checked_mul`: the exact product, or
/// `None` when it does not fit in 256 bits.
#[verifier::external_body]
pub fn wide_checked_mul(a: &Wide, b: &Wide) -> (r: Option<Wide>)
    ensures
        (match r {
            Some(c) => a.value() * b.value() < pow256() && c.value() == a.value() * b.value(),
            None => a.value() * b.value() >= pow256(),
        }),
{
    match spl_math::uint::U256(a.limbs).checked_mul(spl_math::uint::U256(b.limbs)) {
        Some(c) => Some(Wide { limbs: c.0 }),
        None => None,
    }
}

/// Relies on `spl_math::uint::U256::checked_div`: the quotient rounded toward
/// zero, or `None` for a zero divisor.
#[verifier::external_body]
pub fn wide_checked_div(a: &Wide, b: &Wide) -> (r: Option<Wide>)
    ensures
        (match r {
            Some(c) => b.value() > 0 && c.value() == a.value() / b.value(),
            None => b.value() == 0,
        }),
{
    match spl_math::uint::U256(a.limbs).checked_div(spl_math::uint::U256(b.limbs)) {
        Some(c) => Some(Wide { limbs: c.0 }),
        None => None,
    }
}

/// Relies on `spl_math::uint::U256::integer_sqrt`: the largest integer whose
/// square does not exceed the argument.
#[verifier::external_body]
pub fn wide_sqrt(a: &Wide) -> (r: Wide)
    ensures
        r.value() * r.value() <= a.value(),
        (r.value() + 1) * (r.value() + 1) > a.value(),
{
    Wide { limbs: spl_math::uint::U256(a.limbs).integer_sqrt().0 }
}

/// Whether the value fits in 128 bits, decided on the two upper limbs.
pub fn wide_fits_u128(a: &Wide) -> (r: bool)
    ensures
        r <==> a.value() < pow128(),
{
    proof {
        lemma_wide_value_bounds(a);
        if a.limbs@[2] == 0 && a.limbs@[3] == 0 {
            assert(a.limbs@[1] * pow64() <= (pow64() - 1) * pow64()) by (nonlinear_arith)
                requires
                    a.limbs@[1] <= pow64() - 1,
            ;
        } else {
            if a.limbs@[2] >= 1 {
                assert(a.limbs@[2] * pow128() >= pow128()) by (nonlinear_arith)
                    requires
                        a.limbs@[2] >= 1,
                ;
            }
            if a.limbs@[3] >= 1 {
                assert(a.limbs@[3] * pow192() >= pow192()) by (nonlinear_arith)
                    requires
                        a.limbs@[3] >= 1,
                ;
            }
            assert(a.limbs@[1] * pow64() >= 0) by (nonlinear_arith)
                requires
                    a.limbs@[1] >= 0,
            ;
            assert(a.limbs@[2] * pow128() >= 0) by (nonlinear_arith)
                requires
                    a.limbs@[2] >= 0,
            ;
            assert(a.limbs@[3] * pow192() >= 0) by (nonlinear_arith)
                requires
                    a.limbs@[3] >= 0,
            ;
        }
    }
    a.limbs[2] == 0 && a.limbs[3] == 0
}

} // verus!
