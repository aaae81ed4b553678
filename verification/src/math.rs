//! Shared arithmetic groundwork: powers of ten, decimal digit counts, the
//! floor square root, and the deferred-division product helper used by the
//! inverse solver.

use vstd::prelude::*;

use crate::wide::lemma_wide_value_bounds;
use crate::wide::pow256;
use crate::wide::wide_checked_div;
use crate::wide::wide_checked_mul;
use crate::wide::wide_from_u128;
use crate::wide::Wide;

verus! {

/// The smaller of two integers.
pub open spec fn min_int(a: int, b: int) -> int {
    if a < b {
        a
    } else {
        b
    }
}

/// `10^e`.
pub open spec fn pow10(e: nat) -> int
    decreases e,
{
    if e == 0 {
        1
    } else {
        10 * pow10((e - 1) as nat)
    }
}

/// Powers of ten are positive.
pub proof fn lemma_pow10_pos(e: nat)
    ensures
        pow10(e) >= 1,
    decreases e,
{
    if e > 0 {
        lemma_pow10_pos((e - 1) as nat);
    }
}

/// Powers of ten grow with the exponent.
pub proof fn lemma_pow10_increases(e1: nat, e2: nat)
    requires
        e1 <= e2,
    ensures
        pow10(e1) <= pow10(e2),
    decreases e2,
{
    if e1 < e2 {
        lemma_pow10_increases(e1, (e2 - 1) as nat);
        lemma_pow10_pos((e2 - 1) as nat);
    }
}

/// Exponents add when powers of ten are multiplied.
pub proof fn lemma_pow10_adds(a: nat, b: nat)
    ensures
        pow10(a + b) == pow10(a) * pow10(b),
    decreases a,
{
    if a == 0 {
        assert(pow10(0 + b) == 1 * pow10(b));
    } else {
        lemma_pow10_adds((a - 1) as nat, b);
        assert(pow10((a - 1) as nat + b + 1) == 10 * pow10((a - 1) as nat + b));
        assert(10 * (pow10((a - 1) as nat) * pow10(b)) == (10 * pow10((a - 1) as nat)) * pow10(
            b,
        )) by (nonlinear_arith);
    }
}

/// Number of decimal digits of a non-negative integer, where zero counts
/// as one digit.
pub open spec fn digits(n: int) -> nat
    decreases n,
{
    if n < 10 {
        1
    } else {
        digits(n / 10) + 1
    }
}

/// A number lies between the powers of ten its digit count names.
pub proof fn lemma_digits_bounds(n: int)
    requires
        n >= 0,
    ensures
        digits(n) >= 1,
        n < pow10(digits(n)),
        n >= 1 ==> n >= pow10((digits(n) - 1) as nat),
    decreases n,
{
    if n < 10 {
        assert(pow10(0) == 1);
        assert(pow10(1) == 10 * pow10(0));
    } else {
        let m = n / 10;
        lemma_digits_bounds(m);
        assert(n == 10 * m + n % 10);
        assert(n < 10 * pow10(digits(m))) by {
            assert(m + 1 <= pow10(digits(m)));
            assert(10 * (m + 1) <= 10 * pow10(digits(m)));
        }
        assert(pow10(digits(m) + 1) == 10 * pow10(digits(m)));
        assert(n >= 10 * m);
        assert(10 * m >= 10 * pow10((digits(m) - 1) as nat));
        assert(pow10((digits(m) + 1 - 1) as nat) == 10 * pow10((digits(m) - 1) as nat));
    }
}

/// Digit counts are ordered as the numbers are.
pub proof fn lemma_digits_ordered(a: int, b: int)
    requires
        0 <= a <= b,
    ensures
        digits(a) <= digits(b),
{
    lemma_digits_bounds(a);
    lemma_digits_bounds(b);
    if digits(a) > digits(b) {
        lemma_pow10_increases(digits(b), (digits(a) - 1) as nat);
        assert(a >= pow10((digits(a) - 1) as nat));
        assert(b < pow10(digits(b)));
        assert(false);
    }
}

/// `r` is the square root of `n`, rounded down.
pub open spec fn is_sqrt(n: int, r: int) -> bool {
    0 <= r && r * r <= n && n < (r + 1) * (r + 1)
}

/// The square root of `n`, rounded down.
pub open spec fn sqrt_floor(n: int) -> int {
    choose|r: int| is_sqrt(n, r)
}

/// Every non-negative integer has a floor square root.
pub proof fn lemma_sqrt_floor(n: int)
    requires
        n >= 0,
    ensures
        is_sqrt(n, sqrt_floor(n)),
    decreases n,
{
    if n == 0 {
        assert(is_sqrt(0, 0));
    } else {
        lemma_sqrt_floor(n - 1);
        let r = sqrt_floor(n - 1);
        if n < (r + 1) * (r + 1) {
            assert(is_sqrt(n, r));
        } else {
            assert(n == (r + 1) * (r + 1));
            assert((r + 1) * (r + 1) < (r + 2) * (r + 2)) by (nonlinear_arith)
                requires
                    r >= 0,
            ;
            assert(is_sqrt(n, r + 1));
        }
    }
    assert(exists|s: int| is_sqrt(n, s));
}

/// Floor square roots are unique.
pub proof fn lemma_sqrt_unique(n: int, r: int)
    requires
        is_sqrt(n, r),
    ensures
        sqrt_floor(n) == r,
{
    assert(r * r >= 0) by (nonlinear_arith)
        requires
            r >= 0,
    ;
    lemma_sqrt_floor(n);
    let s = sqrt_floor(n);
    if r < s {
        assert((r + 1) * (r + 1) <= s * s) by (nonlinear_arith)
            requires
                0 <= r + 1 <= s,
        ;
        assert(false);
    }
    if s < r {
        assert((s + 1) * (s + 1) <= r * r) by (nonlinear_arith)
            requires
                0 <= s + 1 <= r,
        ;
        assert(false);
    }
}

/// The floor square root is monotone.
pub proof fn lemma_sqrt_ordered(n1: int, n2: int)
    requires
        0 <= n1 <= n2,
    ensures
        sqrt_floor(n1) <= sqrt_floor(n2),
{
    lemma_sqrt_floor(n1);
    lemma_sqrt_floor(n2);
    let r1 = sqrt_floor(n1);
    let r2 = sqrt_floor(n2);
    if r1 > r2 {
        assert((r2 + 1) * (r2 + 1) <= r1 * r1) by (nonlinear_arith)
            requires
                0 <= r2 + 1 <= r1,
        ;
        assert(false);
    }
}

/// Product of a factor list, multiplied left to right in full 256-bit
/// width: absent as soon as a partial product leaves that width.
pub open spec fn checked_prod(s: Seq<int>) -> Option<int>
    decreases s.len(),
{
    if s.len() == 0 {
        Some(1)
    } else {
        match checked_prod(s.drop_last()) {
            Some(p) => if p * s.last() < pow256() {
                Some(p * s.last())
            } else {
                None
            },
            None => None,
        }
    }
}

/// Once a prefix of the factor list has overflowed, the whole product is
/// absent.
pub proof fn lemma_checked_prod_none_prefix(s: Seq<int>, i: int)
    requires
        0 <= i <= s.len(),
        checked_prod(s.take(i)) is None,
    ensures
        checked_prod(s) is None,
    decreases s.len(),
{
    if i == s.len() {
        assert(s.take(i) =~= s);
    } else {
        assert(s.drop_last().take(i) =~= s.take(i));
        lemma_checked_prod_none_prefix(s.drop_last(), i);
    }
}

/// The numbers a sequence of `Wide` values stands for.
pub open spec fn wide_vals(s: Seq<Wide>) -> Seq<int> {
    s.map_values(|w: Wide| w.value())
}

/// The number an optional `Wide` stands for.
pub open spec fn opt_wide_val(r: Option<Wide>) -> Option<int> {
    match r {
        Some(c) => Some(c.value()),
        None => None,
    }
}

/// What [`multiply_divide`] computes: the full-width numerator product over
/// the full-width denominator product, rounded down; absent when either
/// product leaves 256 bits or the denominator product is zero.
pub open spec fn mul_div_spec(ns: Seq<int>, ds: Seq<int>) -> Option<int> {
    match (checked_prod(ns), checked_prod(ds)) {
        (Some(n), Some(d)) => if d > 0 {
            Some(n / d)
        } else {
            None
        },
        _ => None,
    }
}

/// Multiplies the factor list left to right in 256-bit width.
fn checked_product(fs: &Vec<Wide>) -> (r: Option<Wide>)
    ensures
        (match r {
            Some(p) => checked_prod(wide_vals(fs@)) == Some(p.value()),
            None => checked_prod(wide_vals(fs@)) is None,
        }),
{
    let mut acc = wide_from_u128(1);
    let mut i: usize = 0;
    proof {
        assert(wide_vals(fs@).take(0) =~= Seq::<int>::empty());
    }
    while i < fs.len()
        invariant
            0 <= i <= fs.len(),
            checked_prod(wide_vals(fs@).take(i as int)) == Some(acc.value()),
        decreases fs.len() - i,
    {
        let f = fs[i];
        proof {
            lemma_wide_value_bounds(&f);
            assert(wide_vals(fs@).take(i + 1).drop_last() =~= wide_vals(fs@).take(i as int));
            assert(wide_vals(fs@).take(i + 1).last() == f.value());
        }
        match wide_checked_mul(&acc, &f) {
            Some(p2) => {
                acc = p2;
                i = i + 1;
            },
            None => {
                proof {
                    lemma_checked_prod_none_prefix(wide_vals(fs@), i + 1);
                }
                return None;
            },
        }
    }
    proof {
        assert(wide_vals(fs@).take(fs@.len() as int) =~= wide_vals(fs@));
    }
    Some(acc)
}

/// Multiplies an ordered list of numerator factors and one of denominator
/// factors, each in full 256-bit width, and only then divides, rounding
/// down — so no precision is lost before the final division.
pub fn multiply_divide(num: &Vec<Wide>, denom: &Vec<Wide>) -> (r: Option<Wide>)
    ensures
        opt_wide_val(r) == mul_div_spec(wide_vals(num@), wide_vals(denom@)),
{
    let n = match checked_product(num) {
        Some(p) => p,
        None => {
            return None;
        },
    };
    let d = match checked_product(denom) {
        Some(p) => p,
        None => {
            return None;
        },
    };
    proof {
        lemma_wide_value_bounds(&d);
    }
    wide_checked_div(&n, &d)
}

/// `10^e` as a 128-bit value, absent when it does not fit.
pub fn pow10_u128(e: u32) -> (r: Option<u128>)
    ensures
        (match r {
            Some(p) => p as int == pow10(e as nat),
            None => pow10(e as nat) > u128::MAX,
        }),
{
    let mut acc: u128 = 1;
    let mut k: u32 = 0;
    while k < e
        invariant
            0 <= k <= e,
            acc as int == pow10(k as nat),
        decreases e - k,
    {
        proof {
            assert(pow10((k + 1) as nat) == 10 * pow10(k as nat));
        }
        match acc.checked_mul(10) {
            Some(a) => {
                acc = a;
                k = k + 1;
            },
            None => {
                proof {
                    lemma_pow10_increases((k + 1) as nat, e as nat);
                }
                return None;
            },
        }
    }
    Some(acc)
}

} // verus!

verus! {

/// Narrowing a 128-bit value to 64 bits keeps its remainder modulo `2^64`.
pub proof fn lemma_u128_truncate(x: u128)
    ensures
        (x as u64) as int == (x as int) % 0x1_0000_0000_0000_0000,
{
    assert(x as u64 == (x % 0x1_0000_0000_0000_0000) as u64) by (bit_vector);
}

} // verus!
