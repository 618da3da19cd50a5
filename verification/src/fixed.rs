//! Integer division with an explicit rounding direction.
//!
//! Every quantity of the thermal model is a scaled integer, and every
//! division in it says which way it rounds. Temperatures round up and gains
//! round down, so rounding only ever makes the limiter more careful.

use vstd::prelude::*;
use vstd::arithmetic::div_mod::lemma_fundamental_div_mod;
use vstd::arithmetic::div_mod::lemma_fundamental_div_mod_converse;

verus! {

/// The quotient `n / d` rounded towards minus infinity, for any non-zero divisor.
pub open spec fn floor_div(n: int, d: int) -> int {
    if d > 0 {
        n / d
    } else {
        (-n) / (-d)
    }
}

/// The quotient `n / d` rounded towards plus infinity, for any non-zero divisor.
pub open spec fn ceil_div(n: int, d: int) -> int {
    -floor_div(-n, d)
}

/// `floor_div` is the largest integer whose product with a positive divisor
/// does not exceed the dividend.
pub proof fn lemma_floor_div_bounds(n: int, d: int)
    requires
        d > 0,
    ensures
        floor_div(n, d) * d <= n < floor_div(n, d) * d + d,
{
    lemma_fundamental_div_mod(n, d);
    assert(d * (n / d) == (n / d) * d) by (nonlinear_arith);
}

/// `ceil_div` is the smallest integer whose product with a positive divisor
/// reaches the dividend.
pub proof fn lemma_ceil_div_bounds(n: int, d: int)
    requires
        d > 0,
    ensures
        ceil_div(n, d) * d - d < n <= ceil_div(n, d) * d,
{
    lemma_floor_div_bounds(-n, d);
    assert((-floor_div(-n, d)) * d == -(floor_div(-n, d) * d)) by (nonlinear_arith);
}

/// An integer `q` with `q * d <= n` lies at or below the rounded-down quotient.
pub proof fn lemma_floor_div_greatest(n: int, d: int, q: int)
    requires
        d > 0,
        q * d <= n,
    ensures
        q <= floor_div(n, d),
{
    lemma_floor_div_bounds(n, d);
    let f = floor_div(n, d);
    assert(q <= f) by (nonlinear_arith)
        requires
            d > 0,
            q * d <= n,
            n < f * d + d,
    ;
}

/// An integer `q` with `n <= q * d` lies at or above the rounded-up quotient.
pub proof fn lemma_ceil_div_least(n: int, d: int, q: int)
    requires
        d > 0,
        n <= q * d,
    ensures
        ceil_div(n, d) <= q,
{
    lemma_ceil_div_bounds(n, d);
    let c = ceil_div(n, d);
    assert(c <= q) by (nonlinear_arith)
        requires
            d > 0,
            n <= q * d,
            c * d - d < n,
    ;
}

/// Rounding down never exceeds rounding up, and the two differ by at most one.
pub proof fn lemma_floor_le_ceil(n: int, d: int)
    requires
        d > 0,
    ensures
        floor_div(n, d) <= ceil_div(n, d) <= floor_div(n, d) + 1,
{
    lemma_floor_div_bounds(n, d);
    lemma_ceil_div_bounds(n, d);
    let f = floor_div(n, d);
    let c = ceil_div(n, d);
    assert(f <= c <= f + 1) by (nonlinear_arith)
        requires
            d > 0,
            f * d <= n < f * d + d,
            c * d - d < n <= c * d,
    ;
}

/// Both roundings grow with the dividend.
pub proof fn lemma_div_monotonic(a: int, b: int, d: int)
    requires
        d > 0,
        a <= b,
    ensures
        floor_div(a, d) <= floor_div(b, d),
        ceil_div(a, d) <= ceil_div(b, d),
{
    lemma_floor_div_bounds(a, d);
    lemma_floor_div_greatest(b, d, floor_div(a, d));
    lemma_ceil_div_bounds(b, d);
    lemma_ceil_div_least(a, d, ceil_div(b, d));
}

/// A dividend that is an exact multiple divides without rounding.
pub proof fn lemma_div_exact(q: int, d: int)
    requires
        d > 0,
    ensures
        floor_div(q * d, d) == q,
        ceil_div(q * d, d) == q,
{
    lemma_floor_div_greatest(q * d, d, q);
    lemma_ceil_div_least(q * d, d, q);
    lemma_floor_le_ceil(q * d, d);
}

/// The share `num / den` of `x`, for `0 <= num <= den`, rounded up, lies
/// between zero and `x`.
pub proof fn lemma_share_between(x: int, num: int, den: int)
    requires
        0 <= num <= den,
        den > 0,
    ensures
        x >= 0 ==> 0 <= ceil_div(num * x, den) <= x,
        x <= 0 ==> x <= ceil_div(num * x, den) <= 0,
{
    let n = num * x;
    let c = ceil_div(n, den);
    lemma_ceil_div_bounds(n, den);
    if x >= 0 {
        assert(0 <= n <= x * den) by (nonlinear_arith)
            requires
                x >= 0,
                0 <= num <= den,
                n == num * x,
        ;
        lemma_ceil_div_least(n, den, x);
        assert(c >= 0) by (nonlinear_arith)
            requires
                den > 0,
                n >= 0,
                n <= c * den,
        ;
    }
    if x <= 0 {
        assert(x * den <= n <= 0 * den) by (nonlinear_arith)
            requires
                x <= 0,
                0 <= num <= den,
                n == num * x,
        ;
        lemma_ceil_div_least(n, den, 0);
        assert(c >= x) by (nonlinear_arith)
            requires
                den > 0,
                x * den <= n,
                n <= c * den,
        ;
    }
}

/// A quotient by a non-zero integer is no larger in magnitude than the dividend.
pub proof fn lemma_div_magnitude(n: int, d: int)
    requires
        d != 0,
    ensures
        n >= 0 ==> -n <= floor_div(n, d) <= n && -n <= ceil_div(n, d) <= n,
        n <= 0 ==> n <= floor_div(n, d) <= -n && n <= ceil_div(n, d) <= -n,
{
    let a = if d > 0 { d } else { -d };
    let f = floor_div(n, d);
    let c = ceil_div(n, d);
    if d > 0 {
        lemma_floor_div_bounds(n, a);
        lemma_ceil_div_bounds(n, a);
    } else {
        lemma_floor_div_bounds(-n, a);
        lemma_ceil_div_bounds(-n, a);
        assert(floor_div(n, d) == floor_div(-n, a));
        assert(ceil_div(n, d) == ceil_div(-n, a));
    }
    let m = if d > 0 { n } else { -n };
    assert(f * a <= m < f * a + a);
    assert(c * a - a < m <= c * a);
    assert(m >= 0 ==> 0 <= f <= m && 0 <= c <= m) by (nonlinear_arith)
        requires
            a >= 1,
            f * a <= m < f * a + a,
            c * a - a < m <= c * a,
    ;
    assert(m <= 0 ==> m <= f <= 0 && m <= c <= 0) by (nonlinear_arith)
        requires
            a >= 1,
            f * a <= m < f * a + a,
            c * a - a < m <= c * a,
    ;
}

/// Divides and rounds towards minus infinity.
pub fn div_floor(n: i128, d: i128) -> (q: i128)
    requires
        d != 0,
        i128::MIN < n,
        i128::MIN < d,
    ensures
        q == floor_div(n as int, d as int),
{
    let a: i128 = if d < 0 { -n } else { n };
    let b: i128 = if d < 0 { -d } else { d };
    if a >= 0 {
        a / b
    } else {
        let m: i128 = -a;
        let q: i128 = m / b;
        let r: i128 = m % b;
        proof {
            lemma_fundamental_div_mod(m as int, b as int);
            assert((b as int) * (q as int) == (q as int) * (b as int)) by (nonlinear_arith);
            if r == 0 {
                assert((-(q as int)) * (b as int) == -((q as int) * (b as int)))
                    by (nonlinear_arith);
                lemma_fundamental_div_mod_converse(a as int, b as int, -(q as int), 0);
            } else {
                assert((-(q as int) - 1) * (b as int) == -((q as int) * (b as int)) - (b as int))
                    by (nonlinear_arith);
                lemma_fundamental_div_mod_converse(
                    a as int,
                    b as int,
                    -(q as int) - 1,
                    (b as int) - (r as int),
                );
            }
        }
        if r == 0 {
            -q
        } else {
            -q - 1
        }
    }
}

/// Divides and rounds towards plus infinity.
pub fn div_ceil(n: i128, d: i128) -> (q: i128)
    requires
        d != 0,
        i128::MIN < n,
        i128::MIN < d,
    ensures
        q == ceil_div(n as int, d as int),
{
    let f: i128 = div_floor(-n, d);
    proof {
        if d > 0 {
            lemma_floor_div_bounds(-(n as int), d as int);
            assert(f as int > i128::MIN) by (nonlinear_arith)
                requires
                    d > 0,
                    (f as int) * (d as int) + (d as int) > -(n as int),
                    (n as int) <= i128::MAX,
            ;
        } else {
            lemma_floor_div_bounds(n as int, -(d as int));
            assert(f as int > i128::MIN) by (nonlinear_arith)
                requires
                    -(d as int) > 0,
                    (f as int) * (-(d as int)) + (-(d as int)) > (n as int),
                    (n as int) > i128::MIN,
            ;
        }
    }
    -f
}

} // verus!
