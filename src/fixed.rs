//! Integer division with floor and with round-half-up semantics.
use vstd::prelude::*;

verus! {

/// Absolute value.
pub open spec fn abs(v: int) -> int {
    if v < 0 {
        -v
    } else {
        v
    }
}

/// A bound on each factor bounds the product.
pub proof fn lemma_mul_abs_le(x: int, xb: int, y: int, yb: int)
    requires
        abs(x) <= xb,
        abs(y) <= yb,
    ensures
        abs(x * y) <= xb * yb,
{
    assert(abs(x) * abs(y) <= xb * yb) by (nonlinear_arith)
        requires 0 <= abs(x) <= xb, 0 <= abs(y) <= yb;
    assert(abs(x * y) == abs(x) * abs(y)) by (nonlinear_arith);
}

/// `n / d` rounded to the nearest integer, halves rounded up.
pub open spec fn round_div(n: int, d: int) -> int
    recommends
        d > 0,
{
    (2 * n + d) / (2 * d)
}

/// Floor division (the spec operator `/` on `int`) for a positive divisor.
pub fn floor_div(n: i128, d: i128) -> (q: i128)
    requires
        d > 0,
        n > i128::MIN,
    ensures
        q == n / d,
{
    if n >= 0 {
        n / d
    } else {
        let m: i128 = -n;
        let k: i128 = (m - 1) / d;
        proof {
            let mi = m as int - 1;
            let di = d as int;
            let kk = mi / di;
            let r = mi % di;
            vstd::arithmetic::div_mod::lemma_fundamental_div_mod(mi, di);
            assert(mi == di * kk + r && 0 <= r < di);
            assert(n == di * (-kk - 1) + (di - 1 - r)) by (nonlinear_arith)
                requires mi == di * kk + r, n == -(mi + 1);
            vstd::arithmetic::div_mod::lemma_fundamental_div_mod_converse(n as int, di, -kk - 1, di - 1 - r);
        }
        -k - 1
    }
}

/// `n / d` rounded to the nearest integer, halves rounded up.
pub fn round_div_exec(n: i128, d: i128) -> (q: i128)
    requires
        d > 0,
        -0x1000_0000_0000_0000_0000_0000_0000_0000 < n < 0x1000_0000_0000_0000_0000_0000_0000_0000,
        d < 0x1000_0000_0000_0000_0000_0000_0000_0000,
    ensures
        q == round_div(n as int, d as int),
        abs(q as int) <= abs(n as int) + 1,
{
    proof {
        let (ni, di, b) = (n as int, d as int, abs(n as int));
        assert(-b * di <= ni <= b * di) by (nonlinear_arith)
            requires di >= 1, b == abs(ni);
        lemma_round_div_bound(ni, di, b);
    }
    floor_div(2 * n + d, 2 * d)
}

/// `n / d` rounded to the nearest integer, halves rounded away from zero.
pub open spec fn round_away(n: int, d: int) -> int
    recommends
        d > 0,
{
    if n >= 0 {
        round_div(n, d)
    } else {
        -round_div(-n, d)
    }
}

/// `n / d` rounded to the nearest integer, halves rounded away from zero.
pub fn round_away_exec(n: i128, d: i128) -> (q: i128)
    requires
        d > 0,
        -0x1000_0000_0000_0000_0000_0000_0000_0000 < n < 0x1000_0000_0000_0000_0000_0000_0000_0000,
        d < 0x1000_0000_0000_0000_0000_0000_0000_0000,
    ensures
        q == round_away(n as int, d as int),
        abs(q as int) <= abs(n as int) + 1,
{
    if n >= 0 {
        round_div_exec(n, d)
    } else {
        -round_div_exec(-n, d)
    }
}

/// The rounded quotient is within half a divisor of the exact one.
pub proof fn lemma_round_div_close(n: int, d: int)
    requires
        d > 0,
    ensures
        2 * d * round_div(n, d) <= 2 * n + d,
        2 * n + d < 2 * d * round_div(n, d) + 2 * d,
{
    vstd::arithmetic::div_mod::lemma_fundamental_div_mod(2 * n + d, 2 * d);
}

/// Rounding a multiple of the divisor gives the exact quotient.
pub proof fn lemma_round_div_exact(k: int, d: int)
    requires
        d > 0,
    ensures
        round_div(k * d, d) == k,
{
    lemma_round_div_close(k * d, d);
    let q = round_div(k * d, d);
    assert(d * (2 * q - 2 * k) <= d) by (nonlinear_arith)
        requires 2 * d * q <= 2 * (k * d) + d;
    assert(d * (2 * k - 2 * q) < d) by (nonlinear_arith)
        requires 2 * (k * d) + d < 2 * d * q + 2 * d;
    assert(q == k) by (nonlinear_arith)
        requires d * (2 * q - 2 * k) <= d, d * (2 * k - 2 * q) < d, d > 0;
}

/// The rounded quotient is no farther from zero than `|n| / d + 1`.
pub proof fn lemma_round_div_bound(n: int, d: int, b: int)
    requires
        d > 0,
        -b * d <= n <= b * d,
    ensures
        -b <= round_div(n, d) <= b + 1,
{
    lemma_round_div_close(n, d);
    let q = round_div(n, d);
    assert(q <= b + 1) by (nonlinear_arith)
        requires 2 * d * q <= 2 * n + d, n <= b * d, d > 0;
    assert(q >= -b) by (nonlinear_arith)
        requires 2 * n + d < 2 * d * q + 2 * d, -b * d <= n, d > 0;
}

/// Bounds on a dividend bound its floor quotient.
pub proof fn lemma_floor_div_bound(v: int, n: int, b: int)
    requires
        n > 0,
        -(b * n) <= v <= b * n,
    ensures
        -b <= v / n <= b,
{
    vstd::arithmetic::div_mod::lemma_fundamental_div_mod(v, n);
    let q = v / n;
    let r = v % n;
    assert(q <= b) by (nonlinear_arith)
        requires v == n * q + r, 0 <= r, v <= b * n, n > 0;
    assert(q >= -b) by (nonlinear_arith)
        requires v == n * q + r, r < n, -(b * n) <= v, n > 0;
}

} // verus!
