//! Fixed-point trigonometry for the spherical kernel.
//!
//! Angles are radians scaled by `SCALE` (2^56). Sines are evaluated by a
//! truncated Taylor series on `[0, pi/2]` with four guard bits, and inverse
//! sines by bisection over that sine, so every value here is an exact integer
//! function of its arguments.

use vstd::prelude::*;

verus! {

/// One in fixed point: 2^56.
pub const SCALE: u128 = 72057594037927936;

/// `floor(pi * 2^56)`.
pub const PI_FX: u128 = 226375608064910088;

/// `PI_FX / 2`.
pub const HALF_PI_FX: u128 = 113187804032455044;

/// The series runs at `SCALE * GUARD` (2^60) and is rounded back at the end.
pub const GUARD: u128 = 16;

pub const FINE: u128 = 1152921504606846976;

/// Number of Taylor terms; the first omitted one is below 2^-60 on `[0, pi/2]`.
pub const SERIES_TERMS: u128 = 14;

/// The next series term: `t * x^2 / ((2k + 2)(2k + 3))` at fine scale.
pub open spec fn next_term(t: int, x2: int, k: int) -> int {
    t * x2 / (FINE as int) / ((2 * k + 2) * (2 * k + 3))
}

/// Alternating sum of `n` terms starting with the term `t` of index `k`.
pub open spec fn series(t: int, x2: int, k: int, n: nat) -> int
    decreases n,
{
    if n == 0 {
        0
    } else {
        t - series(next_term(t, x2, k), x2, k + 1, (n - 1) as nat)
    }
}

/// Fixed-point sine of an angle in `[0, pi/2]`, clamped to `[0, SCALE]`.
pub open spec fn sin_core_spec(x: int) -> int {
    let xg = x * GUARD;
    let x2 = xg * xg / (FINE as int);
    let acc = series(xg, x2, 0, SERIES_TERMS as nat);
    if acc <= 0 {
        0
    } else if (acc + 8) / (GUARD as int) >= SCALE {
        SCALE as int
    } else {
        (acc + 8) / (GUARD as int)
    }
}

proof fn lemma_next_term_bound(t: int, x2: int, k: int)
    requires
        0 <= t <= 2 * FINE,
        0 <= x2 <= 4 * FINE,
        0 <= k,
    ensures
        0 <= next_term(t, x2, k) <= t,
{
    let f = FINE as int;
    let d = (2 * k + 2) * (2 * k + 3);
    assert(d >= 6) by (nonlinear_arith)
        requires
            k >= 0,
            d == (2 * k + 2) * (2 * k + 3),
    ;
    assert(0 <= t * x2 <= t * (4 * f)) by (nonlinear_arith)
        requires
            0 <= t,
            0 <= x2 <= 4 * f,
    ;
    let q = t * x2 / f;
    assert(0 <= q <= 4 * t) by (nonlinear_arith)
        requires
            0 <= t * x2 <= t * (4 * f),
            q == t * x2 / f,
            f > 0,
    ;
    assert(0 <= q / d <= t) by (nonlinear_arith)
        requires
            0 <= q <= 4 * t,
            d >= 6,
    ;
}

/// Fixed-point sine on `[0, pi/2]`.
pub fn sin_core(x: u128) -> (r: u128)
    requires
        x <= HALF_PI_FX,
    ensures
        r == sin_core_spec(x as int),
        r <= SCALE,
{
    let xg: u128 = x * GUARD;
    assert(xg * xg <= 4 * FINE * FINE) by (nonlinear_arith)
        requires
            xg <= 2 * FINE,
    ;
    let x2: u128 = xg * xg / FINE;
    assert(x2 <= 4 * FINE) by (nonlinear_arith)
        requires
            xg * xg <= 4 * FINE * FINE,
            x2 == xg * xg / (FINE as int),
    ;
    let mut t: u128 = xg;
    let mut acc: i128 = 0;
    let mut k: u128 = 0;
    while k < SERIES_TERMS
        invariant
            k <= SERIES_TERMS,
            x2 == xg * xg / (FINE as int),
            x2 <= 4 * FINE,
            t <= 2 * FINE,
            -(k * 2 * FINE) <= acc <= k * 2 * FINE,
            (if k % 2 == 0 {
                acc + series(t as int, x2 as int, k as int, (SERIES_TERMS - k) as nat)
            } else {
                acc - series(t as int, x2 as int, k as int, (SERIES_TERMS - k) as nat)
            }) == series(xg as int, x2 as int, 0, SERIES_TERMS as nat),
        decreases SERIES_TERMS - k,
    {
        proof {
            lemma_next_term_bound(t as int, x2 as int, k as int);
        }
        let ghost m = (SERIES_TERMS - k) as nat;
        let ghost t0 = t as int;
        let ghost acc0 = acc as int;
        assert(series(t0, x2 as int, k as int, m) == t0 - series(
            next_term(t0, x2 as int, k as int),
            x2 as int,
            k as int + 1,
            (m - 1) as nat,
        ));
        if k % 2 == 0 {
            acc = acc + t as i128;
        } else {
            acc = acc - t as i128;
        }
        assert(t * x2 <= 8 * FINE * FINE) by (nonlinear_arith)
            requires
                t <= 2 * FINE,
                x2 <= 4 * FINE,
        ;
        assert(6 <= (2 * k + 2) * (2 * k + 3) <= 30 * 31) by (nonlinear_arith)
            requires
                k < 14,
        ;
        let d: u128 = (2 * k + 2) * (2 * k + 3);
        t = t * x2 / FINE / d;
        assert(t == next_term(t0, x2 as int, k as int));
        let ghost rest = series(t as int, x2 as int, k as int + 1, (m - 1) as nat);
        if k % 2 == 0 {
            assert(acc == acc0 + t0);
            assert((k + 1) % 2 == 1);
            assert(acc - rest == acc0 + series(t0, x2 as int, k as int, m));
        } else {
            assert(acc == acc0 - t0);
            assert((k + 1) % 2 == 0);
            assert(acc + rest == acc0 - series(t0, x2 as int, k as int, m));
        }
        k = k + 1;
    }
    if acc <= 0 {
        0
    } else {
        let rounded: u128 = (acc as u128 + 8) / GUARD;
        if rounded >= SCALE {
            SCALE
        } else {
            rounded
        }
    }
}

pub open spec fn abs(x: int) -> int {
    if x < 0 {
        -x
    } else {
        x
    }
}

/// Fixed-point sine on `[-pi, pi]`.
pub open spec fn sin_spec(x: int) -> int {
    let m = abs(x);
    let r = if m <= HALF_PI_FX {
        sin_core_spec(m)
    } else {
        sin_core_spec(PI_FX - m)
    };
    if x < 0 {
        -r
    } else {
        r
    }
}

/// Fixed-point cosine on `[-pi, pi]`, as the sine of the complement.
pub open spec fn cos_spec(x: int) -> int {
    let m = abs(x);
    if m <= HALF_PI_FX {
        sin_core_spec(HALF_PI_FX - m)
    } else {
        -sin_core_spec(m - HALF_PI_FX)
    }
}

pub fn sin_fx(x: i128) -> (r: i128)
    requires
        -PI_FX <= x <= PI_FX,
    ensures
        r == sin_spec(x as int),
        -SCALE <= r <= SCALE,
{
    let m: u128 = if x < 0 {
        (-x) as u128
    } else {
        x as u128
    };
    let v: u128 = if m <= HALF_PI_FX {
        sin_core(m)
    } else {
        sin_core(PI_FX - m)
    };
    if x < 0 {
        -(v as i128)
    } else {
        v as i128
    }
}

pub fn cos_fx(x: i128) -> (r: i128)
    requires
        -PI_FX <= x <= PI_FX,
    ensures
        r == cos_spec(x as int),
        -SCALE <= r <= SCALE,
        -HALF_PI_FX <= x <= HALF_PI_FX ==> r >= 0,
{
    let m: u128 = if x < 0 {
        (-x) as u128
    } else {
        x as u128
    };
    if m <= HALF_PI_FX {
        sin_core(HALF_PI_FX - m) as i128
    } else {
        -(sin_core(m - HALF_PI_FX) as i128)
    }
}

/// `r` is the floor square root of `n`.
pub open spec fn is_isqrt(n: int, r: int) -> bool {
    0 <= r && r * r <= n < (r + 1) * (r + 1)
}

pub open spec fn isqrt_spec(n: int) -> int {
    choose|r: int| is_isqrt(n, r)
}

proof fn lemma_isqrt_unique(n: int, r1: int, r2: int)
    requires
        is_isqrt(n, r1),
        is_isqrt(n, r2),
    ensures
        r1 == r2,
{
    if r1 < r2 {
        assert((r1 + 1) * (r1 + 1) <= r2 * r2) by (nonlinear_arith)
            requires
                0 <= r1 + 1 <= r2,
        ;
    } else if r2 < r1 {
        assert((r2 + 1) * (r2 + 1) <= r1 * r1) by (nonlinear_arith)
            requires
                0 <= r2 + 1 <= r1,
        ;
    }
}

pub const SQRT_LIMIT: u128 = 1329227995784915872903807060280344576;

/// Floor square root by bisection, for `n < 2^120`.
pub fn isqrt(n: u128) -> (r: u128)
    requires
        n < SQRT_LIMIT,
    ensures
        is_isqrt(n as int, r as int),
        r == isqrt_spec(n as int),
        r <= 1152921504606846976,
{
    let mut lo: u128 = 0;
    let mut hi: u128 = 1152921504606846976;
    assert(hi * hi == SQRT_LIMIT);
    while hi - lo > 1
        invariant
            lo < hi <= 1152921504606846976,
            lo * lo <= n < hi * hi,
        decreases hi - lo,
    {
        let mid: u128 = lo + (hi - lo) / 2;
        assert(mid * mid <= SQRT_LIMIT) by (nonlinear_arith)
            requires
                mid <= 1152921504606846976,
                SQRT_LIMIT == 1152921504606846976 * 1152921504606846976,
        ;
        if mid * mid <= n {
            lo = mid;
        } else {
            hi = mid;
        }
    }
    proof {
        assert(is_isqrt(n as int, lo as int));
        let c = isqrt_spec(n as int);
        assert(is_isqrt(n as int, c));
        lemma_isqrt_unique(n as int, lo as int, c);
    }
    lo
}

/// Whether the fixed-point sine of `theta` squared is at most `r2`.
pub open spec fn sin_sq_le(theta: int, r2: int) -> bool {
    sin_core_spec(theta) * sin_core_spec(theta) <= r2
}

/// Bisection between `lo` (accepted) and `hi` (rejected).
pub open spec fn asin_search(r2: int, lo: int, hi: int) -> int
    decreases hi - lo,
{
    if hi - lo <= 1 {
        lo
    } else {
        let mid = lo + (hi - lo) / 2;
        if sin_sq_le(mid, r2) {
            asin_search(r2, mid, hi)
        } else {
            asin_search(r2, lo, mid)
        }
    }
}

/// The largest angle in `[0, pi/2]` (to one unit) whose sine squared is at
/// most `r2`, a square at scale `SCALE^2`.
pub open spec fn asin_sq_spec(r2: int) -> int {
    if r2 == 0 {
        0
    } else if sin_sq_le(HALF_PI_FX as int, r2) {
        HALF_PI_FX as int
    } else {
        asin_search(r2, 0, HALF_PI_FX as int)
    }
}

pub fn asin_sq(r2: u128) -> (r: u128)
    requires
        r2 <= SCALE * SCALE,
    ensures
        r == asin_sq_spec(r2 as int),
        r <= HALF_PI_FX,
{
    if r2 == 0 {
        return 0;
    }
    let top: u128 = sin_core(HALF_PI_FX);
    assert(top * top <= SCALE * SCALE) by (nonlinear_arith)
        requires
            top <= SCALE,
    ;
    if top * top <= r2 {
        return HALF_PI_FX;
    }
    let mut lo: u128 = 0;
    let mut hi: u128 = HALF_PI_FX;
    while hi - lo > 1
        invariant
            lo < hi <= HALF_PI_FX,
            r2 <= SCALE * SCALE,
            asin_search(r2 as int, lo as int, hi as int) == asin_search(
                r2 as int,
                0,
                HALF_PI_FX as int,
            ),
        decreases hi - lo,
    {
        let mid: u128 = lo + (hi - lo) / 2;
        let s: u128 = sin_core(mid);
        assert(s * s <= SCALE * SCALE) by (nonlinear_arith)
            requires
                s <= SCALE,
        ;
        if s * s <= r2 {
            lo = mid;
        } else {
            hi = mid;
        }
    }
    lo
}

/// Angle in `[0, pi/2]` of the direction `(w, u)`, i.e. `atan2(u, w)` for
/// non-negative components.
pub open spec fn angle_spec(u: int, w: int) -> int {
    let h = isqrt_spec(u * u + w * w);
    if h == 0 {
        0
    } else if u <= w {
        asin_sq_spec((u * SCALE / h) * (u * SCALE / h))
    } else {
        HALF_PI_FX - asin_sq_spec((w * SCALE / h) * (w * SCALE / h))
    }
}

/// Bound on the components handed to `angle_of`.
pub const COMPONENT_LIMIT: u128 = 576460752303423488;

proof fn lemma_component_le_root(u: int, w: int, h: int)
    requires
        0 <= u,
        0 <= w,
        is_isqrt(u * u + w * w, h),
        h > 0,
    ensures
        u <= h,
        u * SCALE / h <= SCALE,
{
    if u > h {
        assert((h + 1) * (h + 1) <= u * u) by (nonlinear_arith)
            requires
                0 <= h + 1 <= u,
        ;
        assert(w * w >= 0) by (nonlinear_arith);
    }
    assert(u * SCALE <= h * SCALE) by (nonlinear_arith)
        requires
            0 <= u <= h,
    ;
    assert(u * SCALE / h <= SCALE) by (nonlinear_arith)
        requires
            0 <= u * SCALE <= h * SCALE,
            h > 0,
    ;
}

pub fn angle_of(u: u128, w: u128) -> (r: u128)
    requires
        u <= COMPONENT_LIMIT,
        w <= COMPONENT_LIMIT,
    ensures
        r == angle_spec(u as int, w as int),
        r <= HALF_PI_FX,
{
    assert(u * u + w * w < SQRT_LIMIT) by (nonlinear_arith)
        requires
            u <= COMPONENT_LIMIT,
            w <= COMPONENT_LIMIT,
            SQRT_LIMIT == 1152921504606846976 * 1152921504606846976,
            COMPONENT_LIMIT == 576460752303423488,
    ;
    let h: u128 = isqrt(u * u + w * w);
    if h == 0 {
        return 0;
    }
    proof {
        lemma_component_le_root(u as int, w as int, h as int);
        assert(w * w + u * u == u * u + w * w);
        lemma_component_le_root(w as int, u as int, h as int);
    }
    if u <= w {
        let q: u128 = u * SCALE / h;
        assert(q * q <= SCALE * SCALE) by (nonlinear_arith)
            requires
                q <= SCALE,
        ;
        asin_sq(q * q)
    } else {
        let q: u128 = w * SCALE / h;
        assert(q * q <= SCALE * SCALE) by (nonlinear_arith)
            requires
                q <= SCALE,
        ;
        HALF_PI_FX - asin_sq(q * q)
    }
}

} // verus!
