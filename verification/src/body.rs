//! Bodies and their mass classes.
//!
//! A body's class (Asteroid / Planet / Star / BlackHole) is determined by its
//! mass alone, via fixed thresholds of 500, 20 000 and 1 000 000 mass units
//! (here in fixed point, so multiplied by `SCALE`). The display radius is a
//! clamped root law per class; roots are integer square/cube/fourth roots,
//! so the whole derivation is exact integer arithmetic.

use vstd::prelude::*;
use crate::fx::{
    SCALE, tdiv, sqrt_floor, cbrt_floor, isqrt, icbrt, fmul, clamp_fix,
    lemma_tdiv_bound,
};
use crate::vec2::V2;

verus! {

/// Mass class of a body. Thresholds (in mass units): below 500 an Asteroid,
/// below 20 000 a Planet, below 1 000 000 a Star, else a BlackHole.
#[derive(Clone, Copy, PartialEq, Eq, Structural, Debug)]
pub enum Class {
    Asteroid,
    Planet,
    Star,
    BlackHole,
}

/// Class threshold 500 (fixed point).
pub const CLASS_PLANET_AT: i64 = 32768000;
/// Class threshold 20 000 (fixed point).
pub const CLASS_STAR_AT: i64 = 1310720000;
/// Class threshold 1 000 000 (fixed point).
pub const CLASS_BH_AT: i64 = 65536000000;

/// The class a mass falls in.
pub open spec fn class_of(m: int) -> Class {
    if m < CLASS_PLANET_AT {
        Class::Asteroid
    } else if m < CLASS_STAR_AT {
        Class::Planet
    } else if m < CLASS_BH_AT {
        Class::Star
    } else {
        Class::BlackHole
    }
}

/// Clamp into `[lo, hi]`, the spec twin of `clamp_fix`.
pub open spec fn clamp_spec(v: int, lo: int, hi: int) -> int {
    if v < lo {
        lo
    } else if v > hi {
        hi
    } else {
        v
    }
}

/// The display radius of a mass (fixed point): a clamped root law per class.
/// `sqrt(m) * 0.12` in `[1.2, 6]` for asteroids, `sqrt(m) * 0.07` in `[6, 16]`
/// for planets, `cbrt(m) * 0.6` in `[16, 32]` for stars and
/// `m^(1/4) * 0.9` in `[32, 60]` for black holes.
pub open spec fn radius_spec(m: int) -> int {
    match class_of(m) {
        Class::Asteroid => clamp_spec(
            tdiv(sqrt_floor(m * SCALE) * 7864, SCALE as int), 78643, 393216),
        Class::Planet => clamp_spec(
            tdiv(sqrt_floor(m * SCALE) * 4588, SCALE as int), 393216, 1048576),
        Class::Star => clamp_spec(
            tdiv(cbrt_floor(m * SCALE * SCALE) * 39322, SCALE as int), 1048576, 2097152),
        Class::BlackHole => clamp_spec(
            tdiv(sqrt_floor(sqrt_floor(m * SCALE * SCALE * SCALE)) * 58982, SCALE as int),
            2097152, 3932160),
    }
}

impl Class {
    /// The class of a body of mass `m` (fixed point).
    pub fn from_mass(m: i64) -> (r: Class)
        requires
            m >= 0,
        ensures
            r == class_of(m as int),
    {
        if m < CLASS_PLANET_AT {
            Class::Asteroid
        } else if m < CLASS_STAR_AT {
            Class::Planet
        } else if m < CLASS_BH_AT {
            Class::Star
        } else {
            Class::BlackHole
        }
    }

    /// The display radius for mass `m`, always within `[1.2, 60]` units.
    pub fn radius_for_mass(m: i64) -> (r: i64)
        requires
            m >= 0,
        ensures
            r == radius_spec(m as int),
            78643 <= r <= 3932160,
    {
        let class = Class::from_mass(m);
        match class {
            Class::Asteroid => {
                proof {
                    assert((m as int) * (SCALE as int) < 0x1000000_00000000_00000000_00000000int)
                        by (nonlinear_arith)
                        requires 0 <= m <= i64::MAX;
                }
                let s: u128 = isqrt(m as u128 * SCALE as u128);
                proof {
                    lemma_root_small(s as int, m as int * SCALE as int, 0x100_00000000);
                    lemma_tdiv_bound(s as int * 7864, SCALE as int, 0x100_00000000int * 7864);
                    assert(s as int * 7864 <= (SCALE as int) * (0x100_00000000 * 7864))
                        by (nonlinear_arith)
                        requires 0 <= s as int <= 0x100_00000000;
                }
                let scaled: i64 = fmul(s as i64, 7864);
                clamp_fix(scaled, 78643, 393216)
            }
            Class::Planet => {
                proof {
                    assert((m as int) * (SCALE as int) < 0x1000000_00000000_00000000_00000000int)
                        by (nonlinear_arith)
                        requires 0 <= m <= i64::MAX;
                }
                let s: u128 = isqrt(m as u128 * SCALE as u128);
                proof {
                    lemma_root_small(s as int, m as int * SCALE as int, 0x100_00000000);
                    lemma_tdiv_bound(s as int * 4588, SCALE as int, 0x100_00000000int * 4588);
                    assert(s as int * 4588 <= (SCALE as int) * (0x100_00000000 * 4588))
                        by (nonlinear_arith)
                        requires 0 <= s as int <= 0x100_00000000;
                }
                let scaled: i64 = fmul(s as i64, 4588);
                clamp_fix(scaled, 393216, 1048576)
            }
            Class::Star => {
                proof {
                    assert((m as int) * (SCALE as int) * (SCALE as int)
                        < 0x1000000_00000000_00000000_00000000int) by (nonlinear_arith)
                        requires 0 <= m <= i64::MAX;
                }
                let c: u128 = icbrt(m as u128 * SCALE as u128 * SCALE as u128);
                proof {
                    lemma_cbrt_small(c as int, m as int * SCALE as int * SCALE as int,
                        0x10000_00000000);
                    lemma_tdiv_bound(c as int * 39322, SCALE as int, 0x10000_00000000int * 39322);
                    assert(c as int * 39322 <= (SCALE as int) * (0x10000_00000000 * 39322))
                        by (nonlinear_arith)
                        requires 0 <= c as int <= 0x10000_00000000;
                }
                let scaled: i64 = fmul(c as i64, 39322);
                clamp_fix(scaled, 1048576, 2097152)
            }
            Class::BlackHole => {
                proof {
                    assert((m as int) * (SCALE as int) * (SCALE as int) * (SCALE as int)
                        < 0x1000000_00000000_00000000_00000000int) by (nonlinear_arith)
                        requires 0 <= m <= i64::MAX;
                }
                let inner: u128 = isqrt(m as u128 * SCALE as u128 * SCALE as u128
                    * SCALE as u128);
                proof {
                    lemma_root_small(inner as int,
                        m as int * SCALE as int * SCALE as int * SCALE as int,
                        0x1_00000000_00000000);
                }
                let q: u128 = isqrt(inner);
                proof {
                    lemma_root_small(q as int, inner as int, 0x1_00000000);
                    lemma_tdiv_bound(q as int * 58982, SCALE as int, 0x1_00000000int * 58982);
                    assert(q as int * 58982 <= (SCALE as int) * (0x1_00000000 * 58982))
                        by (nonlinear_arith)
                        requires 0 <= q as int <= 0x1_00000000;
                }
                let scaled: i64 = fmul(q as i64, 58982);
                clamp_fix(scaled, 2097152, 3932160)
            }
        }
    }

    /// Brightness multiplier for rendering collaborators (fixed point):
    /// 1.0, 1.2, 3.0, 0.0 by class.
    pub fn glow(&self) -> (r: i64)
        ensures
            r == match *self {
                Class::Asteroid => 65536int,
                Class::Planet => 78643int,
                Class::Star => 196608int,
                Class::BlackHole => 0int,
            },
    {
        match *self {
            Class::Asteroid => 65536,
            Class::Planet => 78643,
            Class::Star => 196608,
            Class::BlackHole => 0,
        }
    }

    /// Score rarity weight (fixed point): 1, 5, 25, 100 by class.
    pub fn rarity(&self) -> (r: i64)
        ensures
            r == match *self {
                Class::Asteroid => 65536int,
                Class::Planet => 327680int,
                Class::Star => 1638400int,
                Class::BlackHole => 6553600int,
            },
    {
        match *self {
            Class::Asteroid => 65536,
            Class::Planet => 327680,
            Class::Star => 1638400,
            Class::BlackHole => 6553600,
        }
    }
}


/// The display radius always lies in `[1.2, 60]` units.
pub proof fn lemma_radius_nonneg(m: int)
    ensures
        78643 <= radius_spec(m) <= 3932160,
{
}

/// A square root below a square bound is below the bound.
pub proof fn lemma_root_small(r: int, n: int, bound: int)
    requires
        0 <= r,
        r * r <= n,
        0 <= n < bound * bound,
        0 < bound,
    ensures
        r < bound,
{
    if r >= bound {
        assert(bound * bound <= r * r) by (nonlinear_arith)
            requires 0 < bound <= r;
    }
}

/// A cube root below a cube bound is below the bound.
pub proof fn lemma_cbrt_small(r: int, n: int, bound: int)
    requires
        0 <= r,
        r * r * r <= n,
        0 <= n < bound * bound * bound,
        0 < bound,
    ensures
        r < bound,
{
    if r >= bound {
        assert(bound * bound * bound <= r * r * r) by (nonlinear_arith)
            requires 0 < bound <= r;
    }
}

/// The dynamic state of one body: mass, velocity and the acceleration
/// recomputed each step, plus the mass-derived class. The position is owned
/// by the hosting world, not by the body itself.
#[derive(Clone, Copy, PartialEq, Eq, Structural, Debug)]
pub struct Body {
    pub mass: i64,
    pub vel: V2,
    pub acc: V2,
    pub class: Class,
}

} // verus!
