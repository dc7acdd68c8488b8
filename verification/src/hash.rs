//! The uniform spatial-hash broad phase.
//!
//! Rebuilt from scratch every step: each live body is bucketed by the grid
//! cell `(floor(x / cell), floor(y / cell))`, with the cell size adapted to
//! twice the mean body radius. Buckets are an association list with
//! pairwise-distinct keys and strictly increasing body indices, so every
//! live body sits in exactly one cell, exactly once.

use vstd::prelude::*;
use vstd::arithmetic::div_mod::{
    lemma_fundamental_div_mod, lemma_fundamental_div_mod_converse_div,
    lemma_div_is_ordered, lemma_div_plus_one,
};
use crate::vec2::V2;
use crate::body::{Body, radius_spec, Class};
use crate::fx::SCALE;

verus! {

/// The grid cell size when no bodies exist (24.0 in fixed point).
pub const DEFAULT_CELL: i64 = 1572864;

/// Floor division by a positive divisor (what a real-valued `floor(a/b)`
/// gives), as opposed to Rust's truncation toward zero.
pub open spec fn floor_div_spec(a: int, b: int) -> int {
    a / b
}

/// Executable floor division for moderate numerators.
pub fn floor_div(a: i64, b: i64) -> (r: i64)
    requires
        b > 0,
        -0x4000_0000_0000_0000 <= a <= 0x4000_0000_0000_0000,
    ensures
        r == floor_div_spec(a as int, b as int),
        -0x4000_0000_0000_0001 <= r <= 0x4000_0000_0000_0000,
{
    proof {
        lemma_floor_div_bounds(a as int, b as int, 0x4000_0000_0000_0000int);
    }
    let qt: i64 = a / b;
    proof {
        assert(b as int * 1 <= b as int * 0x4000_0000_0000_0000int) by (nonlinear_arith)
            requires b >= 1;
        crate::fx::lemma_tdiv_bound(a as int, b as int, 0x4000_0000_0000_0000int);
        assert(-0x4000_0000_0000_0000_0000_0000_0000_0000int
            <= (b as int) * (qt as int) <= 0x4000_0000_0000_0000_0000_0000_0000_0000int)
            by (nonlinear_arith)
            requires
                0 < b <= 0x8000_0000_0000_0000int,
                -0x4000_0000_0000_0000int <= qt as int <= 0x4000_0000_0000_0000int;
        if a >= 0 {
            lemma_fundamental_div_mod(a as int, b as int);
            vstd::arithmetic::div_mod::lemma_mod_bound(a as int, b as int);
        } else {
            lemma_fundamental_div_mod(-(a as int), b as int);
            vstd::arithmetic::div_mod::lemma_mod_bound(-(a as int), b as int);
            let q = (-(a as int)) / (b as int);
            let m = (-(a as int)) % (b as int);
            assert(a as int == (b as int) * (-q) - m) by (nonlinear_arith)
                requires -(a as int) == (b as int) * q + m;
            if m == 0 {
                assert(a as int == (-q) * (b as int) + 0) by (nonlinear_arith)
                    requires a as int == (b as int) * (-q) - m, m == 0;
                lemma_fundamental_div_mod_converse_div(a as int, b as int, -q, 0);
            } else {
                assert(a as int == (-q - 1) * (b as int) + ((b as int) - m))
                    by (nonlinear_arith)
                    requires a as int == (b as int) * (-q) - m;
                lemma_fundamental_div_mod_converse_div(
                    a as int, b as int, -q - 1, (b as int) - m);
            }
            assert((b as int) * (-q) == -((b as int) * q)) by (nonlinear_arith);
        }
    }
    let rt: i128 = a as i128 - (b as i128) * (qt as i128);
    if a < 0 && rt != 0 {
        qt - 1
    } else {
        qt
    }
}


/// A floor quotient by a positive divisor stays within one of the
/// numerator's bounds.
pub proof fn lemma_floor_div_bounds(a: int, b: int, c: int)
    requires
        b >= 1,
        0 <= c,
        -c <= a <= c,
    ensures
        -c - 1 <= a / b <= c,
{
    lemma_fundamental_div_mod(a, b);
    vstd::arithmetic::div_mod::lemma_mod_bound(a, b);
    let q = a / b;
    let m = a % b;
    assert(-c - 1 <= q <= c) by (nonlinear_arith)
        requires
            a == b * q + m,
            0 <= m < b,
            b >= 1,
            0 <= c,
            -c <= a <= c;
}

/// Points at most one cell apart land in the same or an adjacent grid
/// column: `|x1 - x2| <= b` bounds their floor quotients within 1.
pub proof fn lemma_close_cells(x1: int, x2: int, b: int)
    requires
        b > 0,
        -b <= x1 - x2 <= b,
    ensures
        -1 <= floor_div_spec(x1, b) - floor_div_spec(x2, b) <= 1,
{
    lemma_div_is_ordered(x1, x2 + b, b);
    lemma_div_is_ordered(x2, x1 + b, b);
    lemma_div_plus_one(x1, b);
    lemma_div_plus_one(x2, b);
    lemma_div_is_ordered(x2 - b, x1, b);
    lemma_div_is_ordered(x1 - b, x2, b);
}


/// Sum of display radii of the first `k` live bodies.
pub open spec fn radius_sum(bodies: Seq<Body>, alive: Seq<bool>, k: int) -> int
    decreases k,
{
    if k <= 0 {
        0
    } else {
        radius_sum(bodies, alive, k - 1)
            + if alive[k - 1] { radius_spec(bodies[k - 1].mass as int) } else { 0 }
    }
}

/// Number of live bodies among the first `k`.
pub open spec fn alive_count(alive: Seq<bool>, k: int) -> int
    decreases k,
{
    if k <= 0 {
        0
    } else {
        alive_count(alive, k - 1) + if alive[k - 1] { 1int } else { 0int }
    }
}

/// The broad-phase cell size for a snapshot: twice the mean body radius,
/// at least one unit; a fixed default when no body is live.
pub open spec fn cell_size_spec(bodies: Seq<Body>, alive: Seq<bool>) -> int {
    let n = bodies.len() as int;
    let count = alive_count(alive, n);
    if count == 0 {
        DEFAULT_CELL as int
    } else {
        let mean = crate::fx::tdiv(radius_sum(bodies, alive, n), count);
        if 2 * mean > SCALE {
            2 * mean
        } else {
            SCALE as int
        }
    }
}

/// Compute the adaptive cell size of `cell_size_spec`.
pub fn cell_size(bodies: &Vec<Body>, alive: &Vec<bool>) -> (r: i64)
    requires
        bodies@.len() == alive@.len(),
        bodies@.len() <= 0x10000000,
        forall|i: int| 0 <= i < bodies@.len() && alive@[i]
            ==> (#[trigger] bodies@[i]).mass >= 0,
    ensures
        r == cell_size_spec(bodies@, alive@),
        SCALE <= r <= 0x4000_0000_0000_0000,
{
    let n = bodies.len();
    let mut total: i64 = 0;
    let mut count: i64 = 0;
    let mut i: usize = 0;
    while i < n
        invariant
            n == bodies@.len(),
            bodies@.len() == alive@.len(),
            bodies@.len() <= 0x10000000,
            i <= n,
            forall|k: int| 0 <= k < bodies@.len() && alive@[k]
                ==> (#[trigger] bodies@[k]).mass >= 0,
            total == radius_sum(bodies@, alive@, i as int),
            count == alive_count(alive@, i as int),
            0 <= count <= i,
            0 <= total <= 3932160 * count,
        decreases n - i,
    {
        if alive[i] {
            let rad = Class::radius_for_mass(bodies[i].mass);
            total = total + rad;
            count = count + 1;
        }
        i = i + 1;
    }
    if count > 0 {
        let mean = crate::fx::div_fix(total, count);
        proof {
            crate::fx::lemma_tdiv_bound(total as int, count as int, 3932160);
        }
        let twice: i64 = 2 * mean;
        if twice > SCALE {
            twice
        } else {
            SCALE
        }
    } else {
        DEFAULT_CELL
    }
}

/// A grid cell key.
#[derive(Clone, Copy, PartialEq, Eq, Structural, Debug)]
pub struct CellKey {
    pub x: i64,
    pub y: i64,
}

/// One bucket: a key and the live body indices whose position maps to it,
/// in strictly increasing order.
pub struct Bucket {
    pub key: CellKey,
    pub items: Vec<usize>,
}

/// The key a position maps to at a given cell size.
pub open spec fn key_of(cell: int, p: V2) -> CellKey {
    CellKey {
        x: floor_div_spec(p.x as int, cell) as i64,
        y: floor_div_spec(p.y as int, cell) as i64,
    }
}

/// The uniform grid: cell size plus association-list buckets.
pub struct SpatialHash {
    pub cell: i64,
    pub buckets: Vec<Bucket>,
}

/// The structural invariant of a built hash over a position snapshot:
/// distinct keys, strictly increasing in-bucket indices, every entry a
/// live body keyed by its own position, and every live body present.
pub open spec fn hash_wf(h: SpatialHash, positions: Seq<V2>, alive: Seq<bool>) -> bool {
    &&& 1 <= h.cell
    &&& positions.len() == alive.len()
    &&& -0x4000_0000_0000_0000 <= h.cell <= 0x4000_0000_0000_0000
    &&& forall|j: int, k: int|
        0 <= j < k < h.buckets@.len() ==> (#[trigger] h.buckets@[j].key)
            != (#[trigger] h.buckets@[k].key)
    &&& forall|j: int, u: int, v: int|
        0 <= j < h.buckets@.len() && 0 <= u < v < h.buckets@[j].items@.len()
            ==> (#[trigger] h.buckets@[j].items@[u]) < (#[trigger] h.buckets@[j].items@[v])
    &&& forall|j: int, u: int|
        0 <= j < h.buckets@.len() && 0 <= u < h.buckets@[j].items@.len()
            ==> {
                let i = #[trigger] h.buckets@[j].items@[u];
                &&& i < positions.len()
                &&& alive[i as int]
                &&& h.buckets@[j].key == key_of(h.cell as int, positions[i as int])
            }
    &&& forall|i: int|
        0 <= i < positions.len() && alive[i] ==> exists|j: int, u: int|
            0 <= j < h.buckets@.len() && 0 <= u < h.buckets@[j].items@.len()
                && #[trigger] h.buckets@[j].items@[u] == i
}

impl SpatialHash {
    /// An empty hash with the default cell size.
    pub fn empty() -> (r: SpatialHash)
        ensures
            r.cell == DEFAULT_CELL,
            r.buckets@.len() == 0,
    {
        SpatialHash { cell: DEFAULT_CELL, buckets: Vec::new() }
    }

    /// The bucket holding `key`, if any.
    pub fn find_bucket(&self, key: CellKey) -> (r: Option<usize>)
        ensures
            match r {
                Some(j) => j < self.buckets@.len() && self.buckets@[j as int].key == key,
                None => forall|j: int|
                    0 <= j < self.buckets@.len()
                        ==> (#[trigger] self.buckets@[j].key) != key,
            },
    {
        let mut j: usize = 0;
        while j < self.buckets.len()
            invariant
                j <= self.buckets@.len(),
                forall|k: int| 0 <= k < j ==> (#[trigger] self.buckets@[k].key) != key,
            decreases self.buckets@.len() - j,
        {
            if self.buckets[j].key.x == key.x && self.buckets[j].key.y == key.y {
                return Some(j);
            }
            j = j + 1;
        }
        None
    }

    /// Rebuild the hash over a snapshot: every live body is bucketed by
    /// `(floor(x / cell), floor(y / cell))` of its position, and appears
    /// in that one bucket exactly once.
    pub fn build(&mut self, cell: i64, positions: &Vec<V2>, alive: &Vec<bool>)
        requires
            1 <= cell <= 0x4000_0000_0000_0000,
            positions@.len() == alive@.len(),
            forall|i: int| 0 <= i < positions@.len() && alive@[i]
                ==> -0x4000_0000_0000_0000 <= (#[trigger] positions@[i]).x
                    <= 0x4000_0000_0000_0000
                    && -0x4000_0000_0000_0000 <= positions@[i].y <= 0x4000_0000_0000_0000,
        ensures
            final(self).cell == cell,
            hash_wf(*final(self), positions@, alive@),
    {
        self.cell = cell;
        self.buckets = Vec::new();
        let n = positions.len();
        let mut i: usize = 0;
        while i < n
            invariant
                n == positions@.len(),
                positions@.len() == alive@.len(),
                1 <= cell <= 0x4000_0000_0000_0000,
                self.cell == cell,
                i <= n,
                forall|ii: int| 0 <= ii < positions@.len() && alive@[ii]
                    ==> -0x4000_0000_0000_0000 <= (#[trigger] positions@[ii]).x
                        <= 0x4000_0000_0000_0000
                        && -0x4000_0000_0000_0000 <= positions@[ii].y <= 0x4000_0000_0000_0000,
                forall|j: int, k: int|
                    0 <= j < k < self.buckets@.len() ==> (#[trigger] self.buckets@[j].key)
                        != (#[trigger] self.buckets@[k].key),
                forall|j: int, u: int, v: int|
                    0 <= j < self.buckets@.len() && 0 <= u < v < self.buckets@[j].items@.len()
                        ==> (#[trigger] self.buckets@[j].items@[u])
                            < (#[trigger] self.buckets@[j].items@[v]),
                forall|j: int, u: int|
                    0 <= j < self.buckets@.len() && 0 <= u < self.buckets@[j].items@.len()
                        ==> {
                            let b = #[trigger] self.buckets@[j].items@[u];
                            &&& b < i
                            &&& alive@[b as int]
                            &&& self.buckets@[j].key
                                == key_of(cell as int, positions@[b as int])
                        },
                forall|b: int|
                    0 <= b < i && alive@[b] ==> exists|j: int, u: int|
                        0 <= j < self.buckets@.len()
                            && 0 <= u < self.buckets@[j].items@.len()
                            && #[trigger] self.buckets@[j].items@[u] == b,
            decreases n - i,
        {
            if alive[i] {
                let kx = floor_div(positions[i].x, cell);
                let ky = floor_div(positions[i].y, cell);
                let key = CellKey { x: kx, y: ky };
                let ghost bs0 = self.buckets@;
                let found = self.find_bucket(key);
                match found {
                    Some(j) => {
                        let mut bucket = self.buckets.swap_remove(j);
                        bucket.items.push(i);
                        self.buckets.push(bucket);
                        proof {
                            let len0 = bs0.len() as int;
                            assert forall|b: int| 0 <= b < i + 1 && alive@[b]
                                implies exists|jj: int, u: int|
                                    0 <= jj < self.buckets@.len()
                                        && 0 <= u < self.buckets@[jj].items@.len()
                                        && #[trigger] self.buckets@[jj].items@[u] == b
                            by {
                                let last = self.buckets@.len() as int - 1;
                                if b == i {
                                    let u = self.buckets@[last].items@.len() as int - 1;
                                    assert(self.buckets@[last].items@[u] == b);
                                } else {
                                    let (j0, u0): (int, int) = choose|j0: int, u0: int|
                                        0 <= j0 < bs0.len()
                                            && 0 <= u0 < bs0[j0].items@.len()
                                            && #[trigger] bs0[j0].items@[u0] == b;
                                    if j0 == j {
                                        assert(self.buckets@[last].items@[u0] == b);
                                    } else if j0 == len0 - 1 {
                                        assert(self.buckets@[j as int].items@[u0] == b);
                                    } else {
                                        assert(self.buckets@[j0].items@[u0] == b);
                                    }
                                }
                            }
                        }
                    },
                    None => {
                        let mut items: Vec<usize> = Vec::new();
                        items.push(i);
                        self.buckets.push(Bucket { key, items });
                        proof {
                            assert forall|b: int| 0 <= b < i + 1 && alive@[b]
                                implies exists|jj: int, u: int|
                                    0 <= jj < self.buckets@.len()
                                        && 0 <= u < self.buckets@[jj].items@.len()
                                        && #[trigger] self.buckets@[jj].items@[u] == b
                            by {
                                let last = self.buckets@.len() as int - 1;
                                if b == i {
                                    assert(self.buckets@[last].items@[0] == b);
                                } else {
                                    let (j0, u0): (int, int) = choose|j0: int, u0: int|
                                        0 <= j0 < bs0.len()
                                            && 0 <= u0 < bs0[j0].items@.len()
                                            && #[trigger] bs0[j0].items@[u0] == b;
                                    assert(self.buckets@[j0].items@[u0] == b);
                                }
                            }
                        }
                    },
                }
            }
            i = i + 1;
        }
    }
}

} // verus!
