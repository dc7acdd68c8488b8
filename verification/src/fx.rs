//! Fixed-point scalar arithmetic.
//!
//! Every quantity in the engine is an `i64` holding `real value * SCALE`,
//! truncated toward zero. Executable arithmetic widens to 128 bits, so each
//! derived quantity is exact up to one final truncating division; the spec
//! function `tdiv` is that division (Rust's `/`, truncation toward zero),
//! and the contracts below tie every executable helper to it.

use vstd::prelude::*;
use vstd::arithmetic::div_mod::{
    lemma_multiply_divide_le, lemma_div_pos_is_pos, lemma_div_by_multiple,
    lemma_fundamental_div_mod,
};

verus! {

/// The global fixed-point scale: a stored `v` means the real number `v / SCALE`.
pub const SCALE: i64 = 65536;

/// Truncating (round-toward-zero) division, the meaning of `/` on the
/// engine's signed quantities. Defined for positive divisors only.
pub open spec fn tdiv(a: int, b: int) -> int {
    if a >= 0 {
        a / b
    } else {
        -((-a) / b)
    }
}

/// Saturation of a mathematical integer into the `i64` range.
pub open spec fn sat64(v: int) -> int {
    if v > i64::MAX {
        i64::MAX as int
    } else if v < i64::MIN {
        i64::MIN as int
    } else {
        v
    }
}

/// A quotient by a positive divisor is no larger in magnitude than any
/// bound `b` that the numerator respects `m`-fold.
pub proof fn lemma_tdiv_bound(a: int, m: int, b: int)
    requires
        m > 0,
        b >= 0,
        -(m * b) <= a <= m * b,
    ensures
        -b <= tdiv(a, m) <= b,
{
    if a >= 0 {
        lemma_div_pos_is_pos(a, m);
        lemma_multiply_divide_le(a, m, b);
    } else {
        lemma_div_pos_is_pos(-a, m);
        lemma_multiply_divide_le(-a, m, b);
    }
}

/// Truncating division loses less than one divisor's worth of numerator:
/// `|m * tdiv(a, m) - a| < m`.
pub proof fn lemma_tdiv_remainder(a: int, m: int)
    requires
        m > 0,
    ensures
        a >= 0 ==> m * tdiv(a, m) <= a < m * tdiv(a, m) + m,
        a < 0 ==> m * tdiv(a, m) - m < a <= m * tdiv(a, m),
{
    if a >= 0 {
        lemma_fundamental_div_mod(a, m);
        vstd::arithmetic::div_mod::lemma_mod_bound(a, m);
    } else {
        lemma_fundamental_div_mod(-a, m);
        vstd::arithmetic::div_mod::lemma_mod_bound(-a, m);
        assert(m * tdiv(a, m) == -(m * ((-a) / m))) by (nonlinear_arith)
            requires m > 0, a < 0;
    }
}

/// Exact division: when the divisor divides the numerator, the quotient
/// multiplies back.
pub proof fn lemma_tdiv_exact(q: int, m: int)
    requires
        m > 0,
    ensures
        tdiv(q * m, m) == q,
{
    if q >= 0 {
        lemma_div_by_multiple(q, m);
    } else {
        lemma_div_by_multiple(-q, m);
        assert(-(q * m) == (-q) * m) by (nonlinear_arith);
    }
}

/// Truncating `i64` division by a positive divisor.
pub fn div_fix(a: i64, b: i64) -> (r: i64)
    requires
        b > 0,
    ensures
        r == tdiv(a as int, b as int),
{
    a / b
}

/// Truncating `i128` division by a positive divisor, narrowed to `i64`;
/// the caller guarantees the quotient fits.
pub fn div_wide(a: i128, b: i128) -> (r: i64)
    requires
        b > 0,
        i64::MIN <= tdiv(a as int, b as int) <= i64::MAX,
    ensures
        r == tdiv(a as int, b as int),
{
    (a / b) as i64
}

/// Truncating `i128` division by a positive divisor, kept wide.
pub fn div_keep_wide(a: i128, b: i128) -> (r: i128)
    requires
        b > 0,
    ensures
        r == tdiv(a as int, b as int),
{
    a / b
}

/// Fixed-point product `a * b / SCALE`, exact in 128-bit and truncated once.
pub fn fmul(a: i64, b: i64) -> (r: i64)
    requires
        i64::MIN <= tdiv(a as int * b as int, SCALE as int) <= i64::MAX,
    ensures
        r == tdiv(a as int * b as int, SCALE as int),
{
    ((a as i128 * b as i128) / (SCALE as i128)) as i64
}

/// Linear interpolation `a + (b - a) * t / SCALE` with `t` in `[0, SCALE]`.
pub fn lerp_fix(a: i64, b: i64, t: i64) -> (r: i64)
    requires
        0 <= t <= SCALE,
        -0x4000_0000_0000 <= a <= 0x4000_0000_0000,
        -0x4000_0000_0000 <= b <= 0x4000_0000_0000,
    ensures
        r == a + tdiv((b - a) * t, SCALE as int),
{
    proof {
        assert(-(SCALE as int * 0x8000_0000_0000) <= (b as int - a as int) * (t as int)
            <= SCALE as int * 0x8000_0000_0000) by (nonlinear_arith)
            requires
                0 <= t <= SCALE,
                -0x8000_0000_0000 <= b as int - a as int <= 0x8000_0000_0000;
        lemma_tdiv_bound((b as int - a as int) * (t as int), SCALE as int, 0x8000_0000_0000);
    }
    let d: i64 = ((b as i128 - a as i128) * (t as i128) / (SCALE as i128)) as i64;
    a + d
}

/// Clamp `v` into `[lo, hi]`.
pub fn clamp_fix(v: i64, lo: i64, hi: i64) -> (r: i64)
    requires
        lo <= hi,
    ensures
        r == if v < lo { lo as int } else if v > hi { hi as int } else { v as int },
{
    if v < lo {
        lo
    } else if v > hi {
        hi
    } else {
        v
    }
}

/// The integer square root: the unique `r >= 0` with `r^2 <= n < (r+1)^2`.
pub open spec fn sqrt_floor(n: int) -> int {
    choose|r: int| 0 <= r && #[trigger] (r * r) <= n && n < (r + 1) * (r + 1)
}

/// Every nonnegative integer has an integer square root.
pub proof fn lemma_sqrt_exists(n: nat)
    ensures
        exists|r: int| 0 <= r && #[trigger] (r * r) <= n && n < (r + 1) * (r + 1),
    decreases n,
{
    if n == 0 {
        assert(0 * 0 <= 0 < (0 + 1) * (0 + 1)) by (nonlinear_arith);
        assert(0 <= 0int && 0int * 0int <= n && n < (0int + 1) * (0int + 1));
    } else {
        lemma_sqrt_exists((n - 1) as nat);
        let r = choose|r: int| 0 <= r && #[trigger] (r * r) <= n - 1 && n - 1 < (r + 1) * (r + 1);
        if (r + 1) * (r + 1) <= n {
            assert(n < (r + 2) * (r + 2)) by (nonlinear_arith)
                requires n - 1 < (r + 1) * (r + 1), 0 <= r;
            assert(0 <= r + 1 && (r + 1) * (r + 1) <= n && n < ((r + 1) + 1) * ((r + 1) + 1));
        } else {
            assert(0 <= r && r * r <= n && n < (r + 1) * (r + 1));
        }
    }
}

/// Any witness of the square-root bracket is `sqrt_floor(n)`.
pub proof fn lemma_sqrt_unique(n: int, r: int)
    requires
        0 <= r,
        r * r <= n,
        n < (r + 1) * (r + 1),
    ensures
        sqrt_floor(n) == r,
{
    lemma_sqrt_exists(n as nat);
    let s = sqrt_floor(n);
    assert(0 <= s && s * s <= n && n < (s + 1) * (s + 1));
    if s < r {
        assert((s + 1) * (s + 1) <= r * r) by (nonlinear_arith)
            requires 0 <= s, s < r;
    }
    if r < s {
        assert((r + 1) * (r + 1) <= s * s) by (nonlinear_arith)
            requires 0 <= r, r < s;
    }
}

/// The square root is monotonic: anything whose square fits under `n` is
/// at most `sqrt_floor(n)`.
pub proof fn lemma_sqrt_ge(n: int, x: int)
    requires
        0 <= x,
        x * x <= n,
    ensures
        x <= sqrt_floor(n),
{
    lemma_sqrt_exists(n as nat);
    let s = sqrt_floor(n);
    assert(0 <= s && s * s <= n && n < (s + 1) * (s + 1));
    if s < x {
        assert((s + 1) * (s + 1) <= x * x) by (nonlinear_arith)
            requires 0 <= s, s < x;
    }
}

/// Integer square root of a 128-bit value below 2^120, by bisection.
pub fn isqrt(n: u128) -> (r: u128)
    requires
        n < 0x1000000_00000000_00000000_00000000,
    ensures
        r * r <= n,
        n < (r + 1) * (r + 1),
        r == sqrt_floor(n as int),
{
    if n == 0 {
        proof { lemma_sqrt_unique(n as int, 0); }
        return 0;
    }
    let mut lo: u128 = 0;
    let mut hi: u128 = 0x1_00000000_00000000;
    proof {
        assert((0x1_00000000_00000000u128 as int) * (0x1_00000000_00000000u128 as int)
            > n as int) by (nonlinear_arith)
            requires n < 0x1000000_00000000_00000000_00000000;
    }
    while lo + 1 < hi
        invariant
            0 <= lo < hi <= 0x1_00000000_00000000,
            lo * lo <= n,
            n < hi * hi,
        decreases hi - lo,
    {
        let mid: u128 = lo + (hi - lo) / 2;
        assert(lo < mid < hi);
        proof {
            assert(mid as int * mid as int <= u128::MAX as int) by (nonlinear_arith)
                requires mid < 0x1_00000000_00000000u128;
        }
        if mid * mid <= n {
            lo = mid;
        } else {
            hi = mid;
        }
    }
    proof { lemma_sqrt_unique(n as int, lo as int); }
    lo
}

/// The integer cube root: the unique `r >= 0` with `r^3 <= n < (r+1)^3`.
pub open spec fn cbrt_floor(n: int) -> int {
    choose|r: int| 0 <= r && #[trigger] (r * r * r) <= n && n < (r + 1) * (r + 1) * (r + 1)
}

/// Every nonnegative integer has an integer cube root.
pub proof fn lemma_cbrt_exists(n: nat)
    ensures
        exists|r: int| 0 <= r && #[trigger] (r * r * r) <= n && n < (r + 1) * (r + 1) * (r + 1),
    decreases n,
{
    if n == 0 {
        assert(0 <= 0int && 0int * 0int * 0int <= n && n < (0int + 1) * (0int + 1) * (0int + 1));
    } else {
        lemma_cbrt_exists((n - 1) as nat);
        let r = choose|r: int| 0 <= r && #[trigger] (r * r * r) <= n - 1
            && n - 1 < (r + 1) * (r + 1) * (r + 1);
        if (r + 1) * (r + 1) * (r + 1) <= n {
            assert(n < (r + 2) * (r + 2) * (r + 2)) by (nonlinear_arith)
                requires n - 1 < (r + 1) * (r + 1) * (r + 1), 0 <= r;
            assert(0 <= r + 1 && (r + 1) * (r + 1) * (r + 1) <= n
                && n < ((r + 1) + 1) * ((r + 1) + 1) * ((r + 1) + 1));
        } else {
            assert(0 <= r && r * r * r <= n && n < (r + 1) * (r + 1) * (r + 1));
        }
    }
}

/// Any witness of the cube-root bracket is `cbrt_floor(n)`.
pub proof fn lemma_cbrt_unique(n: int, r: int)
    requires
        0 <= r,
        r * r * r <= n,
        n < (r + 1) * (r + 1) * (r + 1),
    ensures
        cbrt_floor(n) == r,
{
    lemma_cbrt_exists(n as nat);
    let s = cbrt_floor(n);
    assert(0 <= s && s * s * s <= n && n < (s + 1) * (s + 1) * (s + 1));
    if s < r {
        assert((s + 1) * (s + 1) * (s + 1) <= r * r * r) by (nonlinear_arith)
            requires 0 <= s, s < r;
    }
    if r < s {
        assert((r + 1) * (r + 1) * (r + 1) <= s * s * s) by (nonlinear_arith)
            requires 0 <= r, r < s;
    }
}

/// Integer cube root of a 128-bit value below 2^120, by bisection.
pub fn icbrt(n: u128) -> (r: u128)
    requires
        n < 0x1000000_00000000_00000000_00000000,
    ensures
        r * r * r <= n,
        n < (r + 1) * (r + 1) * (r + 1),
        r == cbrt_floor(n as int),
{
    if n == 0 {
        proof { lemma_cbrt_unique(n as int, 0); }
        return 0;
    }
    let mut lo: u128 = 0;
    let mut hi: u128 = 0x100_00000000;
    proof {
        assert((0x100_00000000u128 as int) * (0x100_00000000u128 as int)
            * (0x100_00000000u128 as int) > n as int) by (nonlinear_arith)
            requires n < 0x1000000_00000000_00000000_00000000;
    }
    while lo + 1 < hi
        invariant
            0 <= lo < hi <= 0x100_00000000,
            lo * lo * lo <= n,
            n < hi * hi * hi,
        decreases hi - lo,
    {
        let mid: u128 = lo + (hi - lo) / 2;
        assert(lo < mid < hi);
        proof {
            assert(mid as int * mid as int <= u128::MAX as int) by (nonlinear_arith)
                requires mid < 0x100_00000000u128;
            assert(mid as int * mid as int * mid as int <= u128::MAX as int)
                by (nonlinear_arith)
                requires mid < 0x100_00000000u128;
        }
        if mid * mid * mid <= n {
            lo = mid;
        } else {
            hi = mid;
        }
    }
    proof { lemma_cbrt_unique(n as int, lo as int); }
    lo
}

} // verus!
