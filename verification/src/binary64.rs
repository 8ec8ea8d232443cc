//! Rounding as binary64 arithmetic rounds, worked on exact integers: a
//! number keeps 53 significant bits, and what lies past them is rounded to
//! the nearest, a half to the even neighbour.

use vstd::prelude::*;

verus! {

/// Numbers below two to the 53rd have all their bits significant.
pub const SIGNIFICAND_LIMIT: u128 = 9_007_199_254_740_992;

/// Two to the 62nd. A value is held as the integer that is `SCALE` times it.
pub const SCALE: u128 = 4_611_686_018_427_387_904;

/// Inputs of a rounding stay below this bound, two to the 120th.
pub const ROUNDING_LIMIT: u128 = 1_329_227_995_784_915_872_903_807_060_280_344_576;

/// The distance between neighbouring numbers of 53 significant bits at `x`:
/// one up to two to the 53rd, and double for each bit that `x` has more.
pub open spec fn grid(x: nat) -> nat
    decreases x,
{
    if x < SIGNIFICAND_LIMIT {
        1
    } else {
        2 * grid(x / 2)
    }
}

/// The integer nearest to `n / d`, and of two that are equally near the
/// even one.
pub open spec fn half_even(n: nat, d: nat) -> nat {
    if 2 * (n % d) > d || (2 * (n % d) == d && (n / d) % 2 == 1) {
        n / d + 1
    } else {
        n / d
    }
}

/// `n / d` rounded to 53 significant bits: the multiple of the grid at
/// `n / d` that is nearest to it, and of two that are equally near the even
/// multiple.
pub open spec fn rounded(n: nat, d: nat) -> nat {
    half_even(n, d * grid(n / d)) * grid(n / d)
}

/// `half_even` is no further than a half from the quotient.
pub proof fn lemma_half_even_is_nearest(n: nat, d: nat)
    requires
        d > 0,
    ensures
        d * (2 * half_even(n, d) - 1) <= 2 * n <= d * (2 * half_even(n, d) + 1),
{
    let q = n / d;
    let r = n % d;
    assert(n == d * q + r) by {
        vstd::arithmetic::div_mod::lemma_fundamental_div_mod(n as int, d as int);
    }
    assert(0 <= r < d) by {
        vstd::arithmetic::div_mod::lemma_mod_bound(n as int, d as int);
    }
    assert(d * (2 * q - 1) == 2 * (d * q) - d && d * (2 * q + 1) == 2 * (d * q) + d && d * (2 * (q
        + 1) - 1) == 2 * (d * q) + d && d * (2 * (q + 1) + 1) == 2 * (d * q) + 3 * d)
        by (nonlinear_arith);
}

/// `rounded` is a multiple of the grid, no further than half a grid step
/// from the quotient.
pub proof fn lemma_rounded_is_nearest(n: nat, d: nat)
    requires
        d > 0,
    ensures
        rounded(n, d) == half_even(n, d * grid(n / d)) * grid(n / d),
        d * (2 * rounded(n, d) - grid(n / d)) <= 2 * n <= d * (2 * rounded(n, d) + grid(n / d)),
{
    let step = grid(n / d);
    let count = half_even(n, d * step);
    lemma_grid_bounds(n / d);
    assert(d * step > 0) by (nonlinear_arith)
        requires
            d > 0,
            step > 0,
    ;
    lemma_half_even_is_nearest(n, d * step);
    assert(d * (2 * (count * step) - step) == (d * step) * (2 * count - 1) && d * (2 * (count
        * step) + step) == (d * step) * (2 * count + 1)) by (nonlinear_arith);
}

/// The grid leaves a number 53 bits: counted in grid steps, a number is
/// below two to the 53rd, and at least two to the 52nd if it is at least
/// two to the 53rd itself.
pub proof fn lemma_grid_bounds(x: nat)
    ensures
        grid(x) >= 1,
        x < grid(x) * SIGNIFICAND_LIMIT,
        x >= SIGNIFICAND_LIMIT ==> grid(x) * (SIGNIFICAND_LIMIT / 2) <= x,
    decreases x,
{
    if x >= SIGNIFICAND_LIMIT {
        lemma_grid_bounds(x / 2);
        assert(x < 2 * grid(x / 2) * SIGNIFICAND_LIMIT) by (nonlinear_arith)
            requires
                x / 2 < grid(x / 2) * SIGNIFICAND_LIMIT,
        ;
        if x / 2 >= SIGNIFICAND_LIMIT {
            assert(2 * grid(x / 2) * (SIGNIFICAND_LIMIT / 2) <= x) by (nonlinear_arith)
                requires
                    grid(x / 2) * (SIGNIFICAND_LIMIT / 2) <= x / 2,
            ;
        }
    }
}

/// Finds the grid at `x`.
pub(crate) fn spacing(x: u128) -> (step: u128)
    ensures
        step == grid(x as nat),
{
    let mut step: u128 = 1;
    let mut rest: u128 = x;
    while rest >= SIGNIFICAND_LIMIT
        invariant
            grid(x as nat) == step * grid(rest as nat),
            step * rest <= x,
            step >= 1,
        decreases rest,
    {
        assert(step * 2 * (rest / 2) <= step * rest && step * 2 <= step * rest)
            by (nonlinear_arith)
            requires
                rest >= 2,
                step >= 1,
        ;
        assert(step * (2 * grid((rest / 2) as nat)) == step * 2 * grid((rest / 2) as nat))
            by (nonlinear_arith);
        step = step * 2;
        rest = rest / 2;
    }
    assert(step * grid(rest as nat) == step) by (nonlinear_arith)
        requires
            grid(rest as nat) == 1,
    ;
    step
}

/// Rounds `n / d` to the nearest integer, a half to the even one.
pub(crate) fn round_half_even(n: u128, d: u128) -> (nearest: u128)
    requires
        d > 0,
        n < ROUNDING_LIMIT,
    ensures
        nearest == half_even(n as nat, d as nat),
{
    let quotient = n / d;
    let rest = n % d;
    // `rest` is below `d`, so twice `rest` passes `d` just when `rest`
    // passes what `d` lacks to it.
    if rest > d - rest || (rest == d - rest && quotient % 2 == 1) {
        quotient + 1
    } else {
        quotient
    }
}

/// Rounds `n / d` to 53 significant bits.
pub(crate) fn round_to_significand(n: u128, d: u128) -> (nearest: u128)
    requires
        0 < d <= 1000,
        n < ROUNDING_LIMIT,
    ensures
        nearest == rounded(n as nat, d as nat),
        nearest <= 2 * (n / d) + 1,
{
    let step = spacing(n / d);
    proof {
        lemma_grid_bounds((n / d) as nat);
        vstd::arithmetic::div_mod::lemma_fundamental_div_mod(n as int, d as int);
        assert(d * (n / d) <= n);
        if n / d >= SIGNIFICAND_LIMIT {
            assert(d * step <= n && step <= n / d) by (nonlinear_arith)
                requires
                    step * (SIGNIFICAND_LIMIT / 2) <= n / d,
                    d * (n / d) <= n,
                    d >= 1,
                    step >= 1,
            ;
        }
        assert(1 <= d * step < ROUNDING_LIMIT) by (nonlinear_arith)
            requires
                1 <= d <= 1000,
                step >= 1,
                step == 1 || d * step <= n,
                n < ROUNDING_LIMIT,
        ;
    }
    let unit = d * step;
    let count = round_half_even(n, unit);
    proof {
        vstd::arithmetic::div_mod::lemma_fundamental_div_mod(n as int, unit as int);
        let whole = n / d;
        vstd::arithmetic::div_mod::lemma_div_denominator(n as int, d as int, step as int);
        vstd::arithmetic::div_mod::lemma_fundamental_div_mod(whole as int, step as int);
        assert(n / unit == whole / step);
        assert(count * step <= step * (whole / step) + step) by (nonlinear_arith)
            requires
                count <= whole / step + 1,
                step >= 1,
        ;
    }
    count * step
}

} // verus!
