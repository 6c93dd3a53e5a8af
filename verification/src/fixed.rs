//! Saturating fixed-point arithmetic in milli-units (thousandths).
//!
//! A multiplier of `1.0` is represented as `1000`, `0.5` as `500`, and so
//! on.  All scoring arithmetic saturates at `u64::MAX` instead of
//! overflowing, and the saturation point is part of each contract.

use vstd::prelude::*;

verus! {

/// Clamps a mathematical integer into the `u64` range from above.
pub open spec fn sat64(x: int) -> u64
    recommends
        x >= 0,
{
    if x > u64::MAX {
        u64::MAX as u64
    } else {
        x as u64
    }
}

/// The saturating sum of two `u64` values.
pub open spec fn spec_add_sat(a: u64, b: u64) -> u64 {
    sat64(a + b)
}

/// The saturating product of two `u64` values.
pub open spec fn spec_mul_sat(a: u64, b: u64) -> u64 {
    sat64(a * b)
}

/// The saturating product of two milli-unit values, renormalized to
/// milli-units (the exact product is divided by 1000, rounding down).
pub open spec fn spec_mul_milli(a: u64, b: u64) -> u64 {
    sat64((a * b) / 1000)
}

/// Saturating addition.
pub fn add_sat(a: u64, b: u64) -> (r: u64)
    ensures
        r == spec_add_sat(a, b),
{
    a.saturating_add(b)
}

/// Saturating multiplication.
pub fn mul_sat(a: u64, b: u64) -> (r: u64)
    ensures
        r == spec_mul_sat(a, b),
{
    proof {
        lemma_u64_product_fits(a, b);
    }
    let wide: u128 = (a as u128) * (b as u128);
    if wide > u64::MAX as u128 {
        u64::MAX
    } else {
        wide as u64
    }
}

/// The product of two `u64` values always fits in a `u128`.
pub proof fn lemma_u64_product_fits(a: u64, b: u64)
    ensures
        a * b <= u128::MAX,
{
    assert(a * b <= (u64::MAX as int) * (u64::MAX as int)) by (nonlinear_arith);
}

/// Multiplies two milli-unit factors, renormalizing to milli-units.
pub fn mul_milli(a: u64, b: u64) -> (r: u64)
    ensures
        r == spec_mul_milli(a, b),
{
    proof {
        lemma_u64_product_fits(a, b);
    }
    let wide: u128 = ((a as u128) * (b as u128)) / 1000;
    if wide > u64::MAX as u128 {
        u64::MAX
    } else {
        wide as u64
    }
}

/// Ten to the `k`-th power.
pub open spec fn pow10(k: nat) -> nat
    decreases k,
{
    if k == 0 {
        1
    } else {
        10 * pow10((k - 1) as nat)
    }
}

/// The number of whole decimal orders of magnitude in `n`: zero below ten,
/// one below a hundred, and so on.
pub open spec fn spec_log10_floor(n: u64) -> int
    decreases n,
{
    if n < 10 {
        0
    } else {
        1 + spec_log10_floor((n / 10) as u64)
    }
}

/// Powers of ten are positive.
pub proof fn lemma_pow10_pos(k: nat)
    ensures
        pow10(k) >= 1,
    decreases k,
{
    if k > 0 {
        lemma_pow10_pos((k - 1) as nat);
    }
}

/// The decimal order count is never negative.
pub proof fn lemma_log10_floor_nonneg(n: u64)
    ensures
        spec_log10_floor(n) >= 0,
    decreases n,
{
    if n >= 10 {
        lemma_log10_floor_nonneg((n / 10) as u64);
    }
}

/// A value of at least `pow10(k)` has at least `k` decimal orders.
pub proof fn lemma_log10_floor_ge(n: u64, k: nat)
    requires
        n >= pow10(k),
    ensures
        spec_log10_floor(n) >= k,
    decreases k,
{
    if k > 0 {
        let p = pow10((k - 1) as nat);
        assert(pow10(k) == 10 * p);
        lemma_pow10_pos((k - 1) as nat);
        assert(n == 10 * (n / 10) + n % 10);
        assert(n / 10 >= p);
        lemma_log10_floor_ge((n / 10) as u64, (k - 1) as nat);
        assert(spec_log10_floor(n) == 1 + spec_log10_floor((n / 10) as u64));
    } else {
        lemma_log10_floor_nonneg(n);
    }
}

/// A value below `pow10(k)` has fewer than `k` decimal orders.
pub proof fn lemma_log10_floor_lt(n: u64, k: nat)
    requires
        k >= 1,
        n < pow10(k),
    ensures
        spec_log10_floor(n) < k,
    decreases k,
{
    if n >= 10 {
        assert(pow10(k) == 10 * pow10((k - 1) as nat));
        lemma_log10_floor_lt((n / 10) as u64, (k - 1) as nat);
    }
}

/// The number of whole decimal orders of magnitude in `n`.
pub fn log10_floor(n: u64) -> (r: u64)
    requires
        n < 100000,
    ensures
        r == spec_log10_floor(n),
{
    proof {
        reveal_with_fuel(pow10, 6);
        assert(pow10(5) == 100000);
        lemma_log10_floor_lt(n, 5);
        lemma_log10_floor_nonneg(n);
    }
    let mut m: u64 = n;
    let mut c: u64 = 0;
    while m >= 10
        invariant
            spec_log10_floor(n) == c + spec_log10_floor(m),
            spec_log10_floor(n) < 5,
            0 <= spec_log10_floor(m),
            c <= spec_log10_floor(n),
        decreases m,
    {
        m = m / 10;
        c += 1;
        proof {
            lemma_log10_floor_nonneg(m);
        }
    }
    c
}

/// One thousand repeatedly halved `k` times, rounding down.
pub open spec fn halved_milli(k: int) -> int
    decreases k,
{
    if k <= 0 {
        1000
    } else {
        halved_milli(k - 1) / 2
    }
}

/// Halving never goes below zero, and never above one thousand.
pub proof fn lemma_halved_milli_range(k: int)
    ensures
        0 <= halved_milli(k) <= 1000,
    decreases k,
{
    if k > 0 {
        lemma_halved_milli_range(k - 1);
    }
}

/// Once the halving chain reaches zero it stays there.
pub proof fn lemma_halved_milli_zero_stays(i: int, k: int)
    requires
        halved_milli(i) == 0,
        i <= k,
    ensures
        halved_milli(k) == 0,
    decreases k - i,
{
    if i < k {
        lemma_halved_milli_zero_stays(i, k - 1);
    }
}

} // verus!
