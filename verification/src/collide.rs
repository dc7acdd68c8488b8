//! Collision detection and resolution.
//!
//! Candidate pairs come from a body's own spatial-hash cell and the eight
//! neighboring cells. Both policies follow a strict decide-then-apply
//! split: a read-only pass over the snapshot produces instructions, and a
//! second pass applies them, so no body is ever mutated while it is still
//! a neighbor candidate in the same scan.
//!
//! The broad phase scans bodies in increasing index order, which makes the
//! absorb tie-break deterministic: on an exact mass tie between two
//! non-black-holes the lower index wins.

use vstd::prelude::*;
use crate::vec2::V2;
use crate::body::{Body, Class, class_of, radius_spec};
use crate::fx::{SCALE, tdiv, sqrt_floor};
use crate::quadtree::MASS_LIMIT;
use crate::hash::{SpatialHash, hash_wf, key_of, floor_div, floor_div_spec, CellKey, lemma_floor_div_bounds};

verus! {

/// Cap on the velocity components fed to the resolver (2^31 raw); the
/// integrator's velocity ceiling keeps real runs far below it.
pub const RESOLVE_VEL_CAP: i64 = 2147483648;

/// Cap on the position components fed to the resolver (2^41 raw).
pub const RESOLVE_POS_CAP: i64 = 2199023255552;

/// The well-formedness of a snapshot handed to the resolver.
pub open spec fn resolve_input_ok(bodies: Seq<Body>, positions: Seq<V2>, alive: Seq<bool>)
    -> bool {
    &&& bodies.len() == positions.len()
    &&& bodies.len() == alive.len()
    &&& forall|i: int| 0 <= i < bodies.len() && alive[i] ==> {
        let b = #[trigger] bodies[i];
        &&& 0 < b.mass <= MASS_LIMIT
        &&& -RESOLVE_VEL_CAP <= b.vel.x <= RESOLVE_VEL_CAP
        &&& -RESOLVE_VEL_CAP <= b.vel.y <= RESOLVE_VEL_CAP
        &&& -RESOLVE_POS_CAP <= positions[i].x <= RESOLVE_POS_CAP
        &&& -RESOLVE_POS_CAP <= positions[i].y <= RESOLVE_POS_CAP
    }
}

/// Two bodies overlap when their center distance is at most the sum of
/// their radii (compared squared, so it is exact).
pub open spec fn overlapping(bodies: Seq<Body>, positions: Seq<V2>, i: int, j: int) -> bool {
    let dx = positions[j].x - positions[i].x;
    let dy = positions[j].y - positions[i].y;
    let rsum = radius_spec(bodies[i].mass as int) + radius_spec(bodies[j].mass as int);
    dx * dx + dy * dy <= rsum * rsum
}

/// The absorb winner rule: a black hole beats a non-black-hole
/// unconditionally; otherwise the greater mass wins; an exact tie goes to
/// the lower index (the deterministic form of the scan-order tie-break).
pub open spec fn absorb_wins(bodies: Seq<Body>, w: int, l: int) -> bool {
    let wbh = bodies[w].class == Class::BlackHole;
    let lbh = bodies[l].class == Class::BlackHole;
    if wbh != lbh {
        wbh
    } else if bodies[w].mass != bodies[l].mass {
        bodies[w].mass > bodies[l].mass
    } else {
        w < l
    }
}

/// The merged mass: the winner keeps at least its own mass, and otherwise
/// gains the loser plus a bias bonus on its own mass:
/// `max(mw, mw * (1 + bias) + ml)` in fixed point.
pub open spec fn merge_mass(mw: int, ml: int, bias: int) -> int {
    let grown = tdiv(mw * (SCALE + bias), SCALE as int) + ml;
    if grown > mw {
        grown
    } else {
        mw
    }
}

/// The merged velocity (one axis): the mass-weighted average of the two
/// velocities, which conserves momentum up to the fixed-point quantum.
pub open spec fn merge_vel(mw: int, vw: int, ml: int, vl: int) -> int {
    tdiv(mw * vw + ml * vl, mw + ml)
}

/// Mass conservation for absorb merges: with zero bias the merged mass is
/// exactly the sum of the two masses; with any bias in `[0, 1]` it lies
/// between the heavier body and `mw + ml + mw * bias`, the exact bonus
/// being `tdiv(mw * bias, SCALE)`.
pub proof fn lemma_merge_mass_conserved(mw: int, ml: int, bias: int)
    requires
        0 < mw,
        0 < ml,
        0 <= bias <= SCALE,
    ensures
        merge_mass(mw, ml, 0) == mw + ml,
        merge_mass(mw, ml, bias) == mw + ml + tdiv(mw * bias, SCALE as int),
        0 <= tdiv(mw * bias, SCALE as int) <= mw,
        merge_mass(mw, ml, bias) >= mw,
        merge_mass(mw, ml, bias) >= ml,
{
    crate::fx::lemma_tdiv_exact(mw, SCALE as int);
    assert(mw * (SCALE + bias) == mw * bias + mw * SCALE) by (nonlinear_arith);
    assert(0 <= mw * bias <= mw * SCALE) by (nonlinear_arith)
        requires 0 < mw, 0 <= bias <= SCALE;
    assert(mw * bias >= 0);
    vstd::arithmetic::div_mod::lemma_hoist_over_denominator(
        mw * bias, mw, SCALE as nat);
    assert(tdiv(mw * (SCALE + bias), SCALE as int)
        == mw + tdiv(mw * bias, SCALE as int));
    crate::fx::lemma_tdiv_bound(mw * bias, SCALE as int, mw);
}

/// Momentum conservation for absorb merges: the merged velocity is the
/// truncated mass-weighted average, so the total momentum along each axis
/// changes by less than one velocity quantum times the total mass.
pub proof fn lemma_merge_momentum(mw: int, vw: int, ml: int, vl: int)
    requires
        0 < mw,
        0 < ml,
    ensures
        (mw + ml) * merge_vel(mw, vw, ml, vl) - (mw + ml)
            < mw * vw + ml * vl,
        mw * vw + ml * vl
            < (mw + ml) * merge_vel(mw, vw, ml, vl) + (mw + ml),
{
    crate::fx::lemma_tdiv_remainder(mw * vw + ml * vl, mw + ml);
}

/// One absorb instruction: on apply, `winner` takes `new_mass` and
/// `new_vel` (and the class of `new_mass`), and `loser` is despawned.
pub struct Merge {
    pub winner: usize,
    pub loser: usize,
    pub new_mass: i64,
    pub new_vel: V2,
    pub player_died: bool,
}

/// The notification a merge emits for scoring collaborators: who absorbed
/// what (the loser's snapshot mass, velocity and class).
pub struct BodyAbsorbed {
    pub winner: usize,
    pub loser_mass: i64,
    pub loser_vel: V2,
    pub loser_class: Class,
}

/// A merge instruction is sound for a snapshot: live distinct overlapping
/// bodies, winner picked by the rule, and the exact merge formulas.
pub open spec fn valid_merge(
    m: Merge, bodies: Seq<Body>, positions: Seq<V2>, alive: Seq<bool>, bias: int,
    player: Option<usize>,
) -> bool {
    let w = m.winner as int;
    let l = m.loser as int;
    &&& w < bodies.len() && l < bodies.len() && w != l
    &&& alive[w] && alive[l]
    &&& overlapping(bodies, positions, w, l)
    &&& absorb_wins(bodies, w, l)
    &&& m.new_mass == merge_mass(bodies[w].mass as int, bodies[l].mass as int, bias)
    &&& m.new_vel.x == merge_vel(bodies[w].mass as int, bodies[w].vel.x as int,
        bodies[l].mass as int, bodies[l].vel.x as int)
    &&& m.new_vel.y == merge_vel(bodies[w].mass as int, bodies[w].vel.y as int,
        bodies[l].mass as int, bodies[l].vel.y as int)
    &&& m.player_died == (player == Some(m.loser))
}

/// Whether some instruction despawns body `x`.
pub open spec fn is_loser(merges: Seq<Merge>, x: int) -> bool {
    exists|k: int| 0 <= k < merges.len() && (#[trigger] merges[k]).loser == x
}


/// Exact overlap test on the snapshot (squared distance against squared
/// radius sum, in 128-bit arithmetic).
fn check_overlap(bodies: &Vec<Body>, positions: &Vec<V2>, a: usize, b: usize) -> (r: bool)
    requires
        a < bodies@.len(),
        b < bodies@.len(),
        bodies@.len() == positions@.len(),
        0 <= bodies@[a as int].mass,
        0 <= bodies@[b as int].mass,
        -RESOLVE_POS_CAP <= positions@[a as int].x <= RESOLVE_POS_CAP,
        -RESOLVE_POS_CAP <= positions@[a as int].y <= RESOLVE_POS_CAP,
        -RESOLVE_POS_CAP <= positions@[b as int].x <= RESOLVE_POS_CAP,
        -RESOLVE_POS_CAP <= positions@[b as int].y <= RESOLVE_POS_CAP,
    ensures
        r == overlapping(bodies@, positions@, a as int, b as int),
{
    let dx: i128 = positions[b].x as i128 - positions[a].x as i128;
    let dy: i128 = positions[b].y as i128 - positions[a].y as i128;
    proof {
        lemma_sq_range(dx as int);
        lemma_sq_range(dy as int);
    }
    let d2: i128 = dx * dx + dy * dy;
    let ra = Class::radius_for_mass(bodies[a].mass);
    let rb = Class::radius_for_mass(bodies[b].mass);
    let rsum: i128 = ra as i128 + rb as i128;
    proof {
        lemma_sq_range(rsum as int);
    }
    d2 <= rsum * rsum
}

/// Squares of bounded values are bounded (both signs).
pub proof fn lemma_sq_range(x: int)
    requires
        -0x1000_00000000 <= x <= 0x1000_00000000,
    ensures
        0 <= x * x <= 0x1000000_00000000_00000000int,
{
    assert(0 <= x * x <= 0x1000000_00000000_00000000int) by (nonlinear_arith)
        requires -0x1000_00000000 <= x <= 0x1000_00000000;
}

/// Build one merge instruction from the snapshot (exact formulas).
fn make_merge(bodies: &Vec<Body>, w: usize, l: usize, bias: i64, player: Option<usize>)
    -> (m: Merge)
    requires
        w < bodies@.len(),
        l < bodies@.len(),
        0 < bodies@[w as int].mass <= MASS_LIMIT,
        0 < bodies@[l as int].mass <= MASS_LIMIT,
        -RESOLVE_VEL_CAP <= bodies@[w as int].vel.x <= RESOLVE_VEL_CAP,
        -RESOLVE_VEL_CAP <= bodies@[w as int].vel.y <= RESOLVE_VEL_CAP,
        -RESOLVE_VEL_CAP <= bodies@[l as int].vel.x <= RESOLVE_VEL_CAP,
        -RESOLVE_VEL_CAP <= bodies@[l as int].vel.y <= RESOLVE_VEL_CAP,
        0 <= bias <= SCALE,
    ensures
        m.winner == w,
        m.loser == l,
        m.new_mass == merge_mass(bodies@[w as int].mass as int, bodies@[l as int].mass as int,
            bias as int),
        m.new_vel.x == merge_vel(bodies@[w as int].mass as int, bodies@[w as int].vel.x as int,
            bodies@[l as int].mass as int, bodies@[l as int].vel.x as int),
        m.new_vel.y == merge_vel(bodies@[w as int].mass as int, bodies@[w as int].vel.y as int,
            bodies@[l as int].mass as int, bodies@[l as int].vel.y as int),
        m.player_died == (player == Some(l)),
        0 < m.new_mass <= 3 * MASS_LIMIT,
        -RESOLVE_VEL_CAP <= m.new_vel.x <= RESOLVE_VEL_CAP,
        -RESOLVE_VEL_CAP <= m.new_vel.y <= RESOLVE_VEL_CAP,
{
    let mw = bodies[w].mass;
    let ml = bodies[l].mass;
    proof {
        lemma_merge_mass_conserved(mw as int, ml as int, bias as int);
        assert(0 <= mw as int * (SCALE as int + bias as int)
            <= (SCALE as int) * (2 * MASS_LIMIT as int)) by (nonlinear_arith)
            requires 0 < mw <= MASS_LIMIT, 0 <= bias <= SCALE, SCALE == 65536;
        crate::fx::lemma_tdiv_bound(mw as int * (SCALE as int + bias as int), SCALE as int,
            2 * MASS_LIMIT as int);
        lemma_weighted_vel(mw as int, bodies@[w as int].vel.x as int, ml as int,
            bodies@[l as int].vel.x as int);
        lemma_weighted_vel(mw as int, bodies@[w as int].vel.y as int, ml as int,
            bodies@[l as int].vel.y as int);
    }
    let grown: i64 = crate::fx::div_wide(
        mw as i128 * (SCALE + bias) as i128, SCALE as i128) + ml;
    let new_mass: i64 = if grown > mw { grown } else { mw };
    let total: i128 = mw as i128 + ml as i128;
    let nvx: i64 = crate::fx::div_wide(
        mw as i128 * bodies[w].vel.x as i128 + ml as i128 * bodies[l].vel.x as i128, total);
    let nvy: i64 = crate::fx::div_wide(
        mw as i128 * bodies[w].vel.y as i128 + ml as i128 * bodies[l].vel.y as i128, total);
    let player_died = match player {
        Some(p) => p == l,
        None => false,
    };
    Merge { winner: w, loser: l, new_mass, new_vel: V2 { x: nvx, y: nvy }, player_died }
}

/// A mass-weighted average of bounded velocities is bounded the same way.
pub proof fn lemma_weighted_vel(mw: int, vw: int, ml: int, vl: int)
    requires
        0 < mw <= MASS_LIMIT,
        0 < ml <= MASS_LIMIT,
        -RESOLVE_VEL_CAP <= vw <= RESOLVE_VEL_CAP,
        -RESOLVE_VEL_CAP <= vl <= RESOLVE_VEL_CAP,
    ensures
        -RESOLVE_VEL_CAP <= merge_vel(mw, vw, ml, vl) <= RESOLVE_VEL_CAP,
        -(0x80_00000000_00000000int) <= mw * vw <= 0x80_00000000_00000000int,
        -(0x80_00000000_00000000int) <= ml * vl <= 0x80_00000000_00000000int,
{
    assert(-(mw * RESOLVE_VEL_CAP) <= mw * vw <= mw * RESOLVE_VEL_CAP
        && -(ml * RESOLVE_VEL_CAP) <= ml * vl <= ml * RESOLVE_VEL_CAP) by (nonlinear_arith)
        requires
            0 < mw,
            0 < ml,
            -RESOLVE_VEL_CAP <= vw <= RESOLVE_VEL_CAP,
            -RESOLVE_VEL_CAP <= vl <= RESOLVE_VEL_CAP;
    assert((mw + ml) * RESOLVE_VEL_CAP == mw * RESOLVE_VEL_CAP + ml * RESOLVE_VEL_CAP)
        by (nonlinear_arith);
    crate::fx::lemma_tdiv_bound(mw * vw + ml * vl, mw + ml, RESOLVE_VEL_CAP as int);
    assert(-(0x80_00000000_00000000int) <= mw * vw <= 0x80_00000000_00000000int
        && -(0x80_00000000_00000000int) <= ml * vl <= 0x80_00000000_00000000int)
        by (nonlinear_arith)
        requires
            0 < mw <= MASS_LIMIT,
            0 < ml <= MASS_LIMIT,
            -RESOLVE_VEL_CAP <= vw <= RESOLVE_VEL_CAP,
            -RESOLVE_VEL_CAP <= vl <= RESOLVE_VEL_CAP,
            MASS_LIMIT == 0x100_00000000,
            RESOLVE_VEL_CAP == 0x80000000;
}


/// The x offset of neighborhood slot `t` (slots 0..9 are the 3x3 grid).
pub open spec fn off_dx(t: int) -> int {
    t % 3 - 1
}

/// The y offset of neighborhood slot `t`.
pub open spec fn off_dy(t: int) -> int {
    t / 3 - 1
}

/// Key `(kbx, kby)` lies in one of the first `t` neighborhood slots
/// around `(kax, kay)`.
pub open spec fn scanned(t: int, kax: int, kay: int, kbx: int, kby: int) -> bool {
    exists|u: int| 0 <= u < t && kbx == kax + #[trigger] off_dx(u) && kby == kay + off_dy(u)
}

/// The full nine slots cover every key within one cell in each axis.
pub proof fn lemma_scan_covers(kax: int, kay: int, kbx: int, kby: int)
    requires
        -1 <= kbx - kax <= 1,
        -1 <= kby - kay <= 1,
    ensures
        scanned(9, kax, kay, kbx, kby),
{
    let dx = kbx - kax;
    let dy = kby - kay;
    let u = (dy + 1) * 3 + (dx + 1);
    assert(u == 3 * (dy + 1) + (dx + 1) && 0 <= dx + 1 < 3);
    assert(u % 3 == dx + 1 && u / 3 == dy + 1) by {
        vstd::arithmetic::div_mod::lemma_fundamental_div_mod_converse_div(
            u, 3, dy + 1, dx + 1);
        vstd::arithmetic::div_mod::lemma_fundamental_div_mod_converse_mod(
            u, 3, dy + 1, dx + 1);
    }
    assert(0 <= u < 9 && kbx == kax + off_dx(u) && kby == kay + off_dy(u));
}

/// Overlap at a combined radius within the cell size keeps the pair
/// within one grid cell on each axis.
pub proof fn lemma_overlap_close(
    bodies: Seq<Body>, positions: Seq<V2>, i: int, j: int, cell: int,
)
    requires
        0 <= i < bodies.len(),
        0 <= j < bodies.len(),
        bodies.len() == positions.len(),
        overlapping(bodies, positions, i, j),
        radius_spec(bodies[i].mass as int) + radius_spec(bodies[j].mass as int) <= cell,
        0 <= radius_spec(bodies[i].mass as int),
        0 <= radius_spec(bodies[j].mass as int),
        1 <= cell,
    ensures
        -1 <= floor_div_spec(positions[j].x as int, cell)
            - floor_div_spec(positions[i].x as int, cell) <= 1,
        -1 <= floor_div_spec(positions[j].y as int, cell)
            - floor_div_spec(positions[i].y as int, cell) <= 1,
{
    let dx = positions[j].x - positions[i].x;
    let dy = positions[j].y - positions[i].y;
    let rsum = radius_spec(bodies[i].mass as int) + radius_spec(bodies[j].mass as int);
    assert(-rsum <= dx <= rsum && -rsum <= dy <= rsum) by (nonlinear_arith)
        requires
            dx * dx + dy * dy <= rsum * rsum,
            0 <= rsum;
    crate::hash::lemma_close_cells(positions[j].x as int, positions[i].x as int, cell);
    crate::hash::lemma_close_cells(positions[j].y as int, positions[i].y as int, cell);
}



/// The two positions' grid keys differ by at most one cell per axis.
pub open spec fn keys_close(cell: int, positions: Seq<V2>, i: int, j: int) -> bool {
    &&& -1 <= key_of(cell, positions[i]).x as int - key_of(cell, positions[j]).x as int <= 1
    &&& -1 <= key_of(cell, positions[i]).y as int - key_of(cell, positions[j]).y as int <= 1
}

/// The absorb decide pass: a read-only scan over the snapshot, in
/// increasing body-index order, producing merge instructions and the
/// matching absorption notifications.
///
/// Soundness: every instruction pairs two live, distinct, overlapping
/// bodies, names the winner the rule picks, and carries the exact merge
/// formulas; losers are pairwise distinct and never reappear as a later
/// winner. Completeness: any overlapping live pair whose combined radius
/// fits in the grid cell loses one of its members (the broad phase cannot
/// miss it).
pub fn absorb_decide(
    bodies: &Vec<Body>,
    positions: &Vec<V2>,
    alive: &Vec<bool>,
    hash: &SpatialHash,
    bias: i64,
    player: Option<usize>,
) -> (r: (Vec<Merge>, Vec<BodyAbsorbed>))
    requires
        resolve_input_ok(bodies@, positions@, alive@),
        hash_wf(*hash, positions@, alive@),
        0 <= bias <= SCALE,
    ensures
        r.0@.len() == r.1@.len(),
        forall|k: int| 0 <= k < r.0@.len() ==> valid_merge(#[trigger] r.0@[k], bodies@,
            positions@, alive@, bias as int, player),
        forall|k: int| 0 <= k < r.0@.len() ==> {
            let m = #[trigger] r.0@[k];
            &&& r.1@[k].winner == m.winner
            &&& r.1@[k].loser_mass == bodies@[m.loser as int].mass
            &&& r.1@[k].loser_vel == bodies@[m.loser as int].vel
            &&& r.1@[k].loser_class == bodies@[m.loser as int].class
        },
        forall|k1: int, k2: int| 0 <= k1 < k2 < r.0@.len()
            ==> (#[trigger] r.0@[k1]).loser != (#[trigger] r.0@[k2]).loser
                && r.0@[k1].loser != r.0@[k2].winner,
        forall|i: int, j: int|
            0 <= i < bodies@.len() && 0 <= j < bodies@.len() && i != j
                && alive@[i] && alive@[j]
                && #[trigger] overlapping(bodies@, positions@, i, j)
                && radius_spec(bodies@[i].mass as int) + radius_spec(bodies@[j].mass as int)
                    <= hash.cell
                ==> is_loser(r.0@, i) || is_loser(r.0@, j),
{
    let n = bodies.len();
    let mut merges: Vec<Merge> = Vec::new();
    let mut notes: Vec<BodyAbsorbed> = Vec::new();
    let mut removed: Vec<bool> = Vec::new();
    let mut ii: usize = 0;
    while ii < n
        invariant
            ii <= n,
            removed@.len() == ii,
            forall|x: int| 0 <= x < ii ==> !(#[trigger] removed@[x]),
        decreases n - ii,
    {
        removed.push(false);
        ii = ii + 1;
    }
    let mut a: usize = 0;
    while a < n
        invariant
            n == bodies@.len(),
            resolve_input_ok(bodies@, positions@, alive@),
            hash_wf(*hash, positions@, alive@),
            0 <= bias <= SCALE,
            a <= n,
            merges@.len() == notes@.len(),
            removed@.len() == n,
            forall|k: int| 0 <= k < merges@.len() ==> valid_merge(#[trigger] merges@[k],
                bodies@, positions@, alive@, bias as int, player),
            forall|k: int| 0 <= k < merges@.len() ==> {
                let m = #[trigger] merges@[k];
                &&& notes@[k].winner == m.winner
                &&& notes@[k].loser_mass == bodies@[m.loser as int].mass
                &&& notes@[k].loser_vel == bodies@[m.loser as int].vel
                &&& notes@[k].loser_class == bodies@[m.loser as int].class
            },
            forall|k1: int, k2: int| 0 <= k1 < k2 < merges@.len()
                ==> (#[trigger] merges@[k1]).loser != (#[trigger] merges@[k2]).loser
                    && merges@[k1].loser != merges@[k2].winner,
            forall|x: int| 0 <= x < n ==> (#[trigger] removed@[x]) == is_loser(merges@, x),
            forall|i: int, j: int|
                0 <= i < n && 0 <= j < n && i != j && (i < a || j < a)
                    && alive@[i] && alive@[j]
                    && #[trigger] overlapping(bodies@, positions@, i, j)
                    && keys_close(hash.cell as int, positions@, i, j)
                    ==> removed@[i] || removed@[j],
        decreases n - a,
    {
        if alive[a] && !removed[a] {
            let cell = hash.cell;
            proof {
                assert(0 < bodies@[a as int].mass);
            }
            let kax = floor_div(positions[a].x, cell);
            let kay = floor_div(positions[a].y, cell);
            let mut t: usize = 0;
            let mut a_gone: bool = false;
            while t < 9 && !a_gone
                invariant
                    n == bodies@.len(),
                    resolve_input_ok(bodies@, positions@, alive@),
                    hash_wf(*hash, positions@, alive@),
                    0 <= bias <= SCALE,
                    a < n,
                    alive@[a as int],
                    cell == hash.cell,
                    kax == floor_div_spec(positions@[a as int].x as int, cell as int),
                    kay == floor_div_spec(positions@[a as int].y as int, cell as int),
                    -0x4000_0000_0000_0001 <= kax <= 0x4000_0000_0000_0000,
                    -0x4000_0000_0000_0001 <= kay <= 0x4000_0000_0000_0000,
                    t <= 9,
                    merges@.len() == notes@.len(),
                    removed@.len() == n,
                    a_gone == removed@[a as int],
                    forall|k: int| 0 <= k < merges@.len() ==> valid_merge(
                        #[trigger] merges@[k], bodies@, positions@, alive@, bias as int,
                        player),
                    forall|k: int| 0 <= k < merges@.len() ==> {
                        let m = #[trigger] merges@[k];
                        &&& notes@[k].winner == m.winner
                        &&& notes@[k].loser_mass == bodies@[m.loser as int].mass
                        &&& notes@[k].loser_vel == bodies@[m.loser as int].vel
                        &&& notes@[k].loser_class == bodies@[m.loser as int].class
                    },
                    forall|k1: int, k2: int| 0 <= k1 < k2 < merges@.len()
                        ==> (#[trigger] merges@[k1]).loser != (#[trigger] merges@[k2]).loser
                            && merges@[k1].loser != merges@[k2].winner,
                    forall|x: int| 0 <= x < n
                        ==> (#[trigger] removed@[x]) == is_loser(merges@, x),
                    forall|i: int, j: int|
                        0 <= i < n && 0 <= j < n && i != j && (i < a || j < a)
                            && alive@[i] && alive@[j]
                            && #[trigger] overlapping(bodies@, positions@, i, j)
                            && keys_close(hash.cell as int, positions@, i, j)
                            ==> removed@[i] || removed@[j],
                    !removed@[a as int] ==> forall|b: int|
                        0 <= b < n && b != a && alive@[b]
                            && #[trigger] overlapping(bodies@, positions@, a as int, b)
                            && scanned(t as int, kax as int, kay as int,
                                key_of(cell as int, positions@[b]).x as int,
                                key_of(cell as int, positions@[b]).y as int)
                            ==> removed@[b],
                decreases 9 - t,
            {
                let dxo: i64 = (t % 3) as i64 - 1;
                let dyo: i64 = (t / 3) as i64 - 1;
                let nk = CellKey { x: kax + dxo, y: kay + dyo };
                let ghost merges_at_t = merges@;
                match hash.find_bucket(nk) {
                    Some(bj) => {
                        let mut u: usize = 0;
                        let items_len = hash.buckets[bj].items.len();
                        while u < items_len && !a_gone
                            invariant
                                n == bodies@.len(),
                                resolve_input_ok(bodies@, positions@, alive@),
                                hash_wf(*hash, positions@, alive@),
                                0 <= bias <= SCALE,
                                a < n,
                                alive@[a as int],
                                cell == hash.cell,
                                bj < hash.buckets@.len(),
                                t < 9,
                                kax == floor_div_spec(positions@[a as int].x as int,
                                    cell as int),
                                kay == floor_div_spec(positions@[a as int].y as int,
                                    cell as int),
                                -0x4000_0000_0000_0001 <= kax <= 0x4000_0000_0000_0000,
                                -0x4000_0000_0000_0001 <= kay <= 0x4000_0000_0000_0000,
                                nk.x == kax + off_dx(t as int),
                                nk.y == kay + off_dy(t as int),
                                hash.buckets@[bj as int].key == nk,
                                items_len == hash.buckets@[bj as int].items@.len(),
                                u <= items_len,
                                merges@.len() == notes@.len(),
                                removed@.len() == n,
                                a_gone == removed@[a as int],
                                forall|k: int| 0 <= k < merges@.len() ==> valid_merge(
                                    #[trigger] merges@[k], bodies@, positions@, alive@,
                                    bias as int, player),
                                forall|k: int| 0 <= k < merges@.len() ==> {
                                    let m = #[trigger] merges@[k];
                                    &&& notes@[k].winner == m.winner
                                    &&& notes@[k].loser_mass == bodies@[m.loser as int].mass
                                    &&& notes@[k].loser_vel == bodies@[m.loser as int].vel
                                    &&& notes@[k].loser_class == bodies@[m.loser as int].class
                                },
                                forall|k1: int, k2: int| 0 <= k1 < k2 < merges@.len()
                                    ==> (#[trigger] merges@[k1]).loser
                                        != (#[trigger] merges@[k2]).loser
                                        && merges@[k1].loser != merges@[k2].winner,
                                forall|x: int| 0 <= x < n
                                    ==> (#[trigger] removed@[x]) == is_loser(merges@, x),
                                forall|i: int, j: int|
                                    0 <= i < n && 0 <= j < n && i != j && (i < a || j < a)
                                        && alive@[i] && alive@[j]
                                        && #[trigger] overlapping(bodies@, positions@, i, j)
                                        && keys_close(hash.cell as int, positions@, i, j)
                                        ==> removed@[i] || removed@[j],
                                !removed@[a as int] ==> forall|b: int|
                                    0 <= b < n && b != a && alive@[b]
                                        && #[trigger] overlapping(bodies@, positions@,
                                            a as int, b)
                                        && scanned(t as int, kax as int, kay as int,
                                            key_of(cell as int, positions@[b]).x as int,
                                            key_of(cell as int, positions@[b]).y as int)
                                        ==> removed@[b],
                                !removed@[a as int] ==> forall|v: int|
                                    0 <= v < u ==> {
                                        let b = #[trigger] hash.buckets@[
                                            bj as int].items@[v];
                                        b == a as int || removed@[b as int]
                                            || !overlapping(bodies@, positions@, a as int,
                                                b as int)
                                    },
                            decreases items_len - u,
                        {
                            let b = hash.buckets[bj].items[u];
                            if b != a && !removed[b] {
                                if check_overlap(bodies, positions, a, b) {
                                    let abh = bodies[a].class == Class::BlackHole;
                                    let bbh = bodies[b].class == Class::BlackHole;
                                    let a_wins = if abh && !bbh {
                                        true
                                    } else if bbh && !abh {
                                        false
                                    } else {
                                        bodies[a].mass >= bodies[b].mass
                                    };
                                    proof {
                                        if b < a {
                                            // the pair was already decided when the
                                            // scan passed index b: both being present
                                            // now is impossible
                                            lemma_overlap_sym(bodies@, positions@,
                                                a as int, b as int);
                                            lemma_keys_close_here(*hash, positions@,
                                                alive@, a as int, b as int, bj as int,
                                                t as int, kax as int, kay as int);
                                            assert(false);
                                        }
                                    }
                                    if a_wins {
                                        let m = make_merge(bodies, a, b, bias, player);
                                        let note = BodyAbsorbed {
                                            winner: a,
                                            loser_mass: bodies[b].mass,
                                            loser_vel: bodies[b].vel,
                                            loser_class: bodies[b].class,
                                        };
                                        let ghost old_merges = merges@;
                                        merges.push(m);
                                        notes.push(note);
                                        removed.set(b, true);
                                        proof {
                                            lemma_loser_push(old_merges, m, n as int);
                                        }
                                    } else {
                                        proof {
                                            lemma_overlap_sym(bodies@, positions@,
                                                a as int, b as int);
                                        }
                                        let m = make_merge(bodies, b, a, bias, player);
                                        let note = BodyAbsorbed {
                                            winner: b,
                                            loser_mass: bodies[a].mass,
                                            loser_vel: bodies[a].vel,
                                            loser_class: bodies[a].class,
                                        };
                                        let ghost old_merges = merges@;
                                        merges.push(m);
                                        notes.push(note);
                                        removed.set(a, true);
                                        a_gone = true;
                                        proof {
                                            lemma_loser_push(old_merges, m, n as int);
                                        }
                                    }
                                }
                            }
                            u = u + 1;
                        }
                        proof {
                            if !removed@[a as int] {
                                lemma_bucket_complete(*hash, positions@, alive@, bodies@,
                                    removed@, a as int, bj as int, t as int,
                                    kax as int, kay as int);
                            }
                        }
                    },
                    None => {
                        proof {
                            if !removed@[a as int] {
                                lemma_no_bucket_complete(*hash, positions@, alive@,
                                    bodies@, removed@, a as int, nk, t as int,
                                    kax as int, kay as int);
                            }
                        }
                    },
                }
                t = t + 1;
            }
            proof {
                if !removed@[a as int] {
                    assert forall|j: int|
                        #![trigger overlapping(bodies@, positions@, a as int, j)]
                        #![trigger overlapping(bodies@, positions@, j, a as int)]
                        0 <= j < n && j != a && alive@[j]
                            && (overlapping(bodies@, positions@, a as int, j)
                                || overlapping(bodies@, positions@, j, a as int))
                            && (keys_close(hash.cell as int, positions@, a as int, j)
                                || keys_close(hash.cell as int, positions@, j, a as int))
                        implies removed@[j]
                    by {
                        lemma_overlap_sym(bodies@, positions@, a as int, j);
                        assert(0 < bodies@[j].mass);
                        crate::hash::lemma_floor_div_bounds(positions@[j].x as int,
                            cell as int, 0x4000_0000_0000_0000int);
                        crate::hash::lemma_floor_div_bounds(positions@[j].y as int,
                            cell as int, 0x4000_0000_0000_0000int);
                        lemma_scan_covers(kax as int, kay as int,
                            key_of(cell as int, positions@[j]).x as int,
                            key_of(cell as int, positions@[j]).y as int);
                    }
                }
            }
        }
        a = a + 1;
    }
    proof {
        assert forall|i: int, j: int|
            0 <= i < bodies@.len() && 0 <= j < bodies@.len() && i != j
                && alive@[i] && alive@[j]
                && #[trigger] overlapping(bodies@, positions@, i, j)
                && radius_spec(bodies@[i].mass as int) + radius_spec(bodies@[j].mass as int)
                    <= hash.cell
            implies is_loser(merges@, i) || is_loser(merges@, j)
        by {
            crate::body::lemma_radius_nonneg(bodies@[i].mass as int);
            crate::body::lemma_radius_nonneg(bodies@[j].mass as int);
            lemma_overlap_close(bodies@, positions@, i, j, hash.cell as int);
            crate::hash::lemma_floor_div_bounds(positions@[i].x as int,
                hash.cell as int, 0x4000_0000_0000_0000int);
            crate::hash::lemma_floor_div_bounds(positions@[i].y as int,
                hash.cell as int, 0x4000_0000_0000_0000int);
            crate::hash::lemma_floor_div_bounds(positions@[j].x as int,
                hash.cell as int, 0x4000_0000_0000_0000int);
            crate::hash::lemma_floor_div_bounds(positions@[j].y as int,
                hash.cell as int, 0x4000_0000_0000_0000int);
            assert(keys_close(hash.cell as int, positions@, i, j));
            assert(removed@[i] || removed@[j]);
        }
    }
    (merges, notes)
}


/// A body found in one of the scanner's nine neighborhood buckets has a
/// grid key within one cell of the scanner's key.
pub proof fn lemma_keys_close_here(
    h: SpatialHash, positions: Seq<V2>, alive: Seq<bool>, a: int, b: int, bj: int,
    t: int, kax: int, kay: int,
)
    requires
        hash_wf(h, positions, alive),
        0 <= a < positions.len(),
        0 <= b < positions.len(),
        0 <= bj < h.buckets@.len(),
        0 <= t < 9,
        kax == floor_div_spec(positions[a].x as int, h.cell as int),
        kay == floor_div_spec(positions[a].y as int, h.cell as int),
        -0x4000_0000_0000_0001 <= kax <= 0x4000_0000_0000_0000,
        -0x4000_0000_0000_0001 <= kay <= 0x4000_0000_0000_0000,
        h.buckets@[bj].key == (CellKey {
            x: (kax + off_dx(t)) as i64,
            y: (kay + off_dy(t)) as i64,
        }),
        key_of(h.cell as int, positions[b]) == h.buckets@[bj].key,
        -0x4000_0000_0000_0000 <= positions[b].x <= 0x4000_0000_0000_0000,
        -0x4000_0000_0000_0000 <= positions[b].y <= 0x4000_0000_0000_0000,
    ensures
        keys_close(h.cell as int, positions, a, b),
        keys_close(h.cell as int, positions, b, a),
{
    lemma_floor_div_bounds(positions[b].x as int, h.cell as int, 0x4000_0000_0000_0000int);
    lemma_floor_div_bounds(positions[b].y as int, h.cell as int, 0x4000_0000_0000_0000int);
    assert(-1 <= off_dx(t) <= 1 && -1 <= off_dy(t) <= 1);
}

/// Overlap is symmetric.
pub proof fn lemma_overlap_sym(bodies: Seq<Body>, positions: Seq<V2>, i: int, j: int)
    requires
        0 <= i < bodies.len(),
        0 <= j < bodies.len(),
        bodies.len() == positions.len(),
    ensures
        overlapping(bodies, positions, i, j) == overlapping(bodies, positions, j, i),
{
    let dx = positions[j].x - positions[i].x;
    let dy = positions[j].y - positions[i].y;
    assert(dx * dx == (-dx) * (-dx) && dy * dy == (-dy) * (-dy)) by (nonlinear_arith);
}

/// Pushing a merge extends the loser set by exactly its loser.
pub proof fn lemma_loser_push(merges: Seq<Merge>, m: Merge, n: int)
    ensures
        forall|x: int| is_loser(merges.push(m), x)
            == (is_loser(merges, x) || m.loser == x),
{
    assert forall|x: int| is_loser(merges.push(m), x)
        implies (is_loser(merges, x) || m.loser == x)
    by {
        let k = choose|k: int| 0 <= k < merges.push(m).len()
            && (#[trigger] merges.push(m)[k]).loser == x;
        if k < merges.len() {
            assert(merges[k].loser == x);
        }
    }
    assert forall|x: int| (is_loser(merges, x) || m.loser == x)
        implies is_loser(merges.push(m), x)
    by {
        if is_loser(merges, x) {
            let k = choose|k: int| 0 <= k < merges.len()
                && (#[trigger] merges[k]).loser == x;
            assert(merges.push(m)[k].loser == x);
        } else {
            assert(merges.push(m)[merges.len() as int].loser == x);
        }
    }
}

/// After a bucket's items are all examined, every live body keyed to that
/// bucket that still overlaps the scanner has been removed.
pub proof fn lemma_bucket_complete(
    h: SpatialHash, positions: Seq<V2>, alive: Seq<bool>, bodies: Seq<Body>,
    removed: Seq<bool>, a: int, bj: int, t: int, kax: int, kay: int,
)
    requires
        hash_wf(h, positions, alive),
        bodies.len() == positions.len(),
        removed.len() == positions.len(),
        0 <= a < positions.len(),
        0 <= bj < h.buckets@.len(),
        0 <= t < 9,
        h.buckets@[bj].key == (CellKey {
            x: (kax + off_dx(t)) as i64,
            y: (kay + off_dy(t)) as i64,
        }),
        -0x4000_0000_0000_0001 <= kax <= 0x4000_0000_0000_0000,
        -0x4000_0000_0000_0001 <= kay <= 0x4000_0000_0000_0000,
        !removed[a],
        forall|b: int|
            0 <= b < positions.len() && b != a && alive[b]
                && #[trigger] overlapping(bodies, positions, a, b)
                && scanned(t, kax, kay, key_of(h.cell as int, positions[b]).x as int,
                    key_of(h.cell as int, positions[b]).y as int)
                ==> removed[b],
        forall|v: int|
            0 <= v < h.buckets@[bj].items@.len() ==> {
                let b = #[trigger] h.buckets@[bj].items@[v];
                b == a || removed[b as int]
                    || !overlapping(bodies, positions, a, b as int)
            },
    ensures
        forall|b: int|
            0 <= b < positions.len() && b != a && alive[b]
                && #[trigger] overlapping(bodies, positions, a, b)
                && scanned(t + 1, kax, kay, key_of(h.cell as int, positions[b]).x as int,
                    key_of(h.cell as int, positions[b]).y as int)
                ==> removed[b],
{
    assert forall|b: int|
        0 <= b < positions.len() && b != a && alive[b]
            && #[trigger] overlapping(bodies, positions, a, b)
            && scanned(t + 1, kax, kay, key_of(h.cell as int, positions[b]).x as int,
                key_of(h.cell as int, positions[b]).y as int)
        implies removed[b]
    by {
        let kb = key_of(h.cell as int, positions[b]);
        let u = choose|u: int| 0 <= u < t + 1 && kb.x as int == kax + #[trigger] off_dx(u)
            && kb.y as int == kay + off_dy(u);
        if u < t {
            assert(scanned(t, kax, kay, kb.x as int, kb.y as int));
        } else {
            // b is keyed to exactly this bucket
            assert(kb == h.buckets@[bj].key);
            let (j0, v0): (int, int) = choose|j0: int, v0: int|
                0 <= j0 < h.buckets@.len() && 0 <= v0 < h.buckets@[j0].items@.len()
                    && #[trigger] h.buckets@[j0].items@[v0] == b;
            assert(h.buckets@[j0].key == kb);
            if j0 != bj {
                assert(h.buckets@[j0].key != h.buckets@[bj].key);
            }
            assert(h.buckets@[bj].items@[v0] == b);
        }
    }
}

/// If no bucket holds a neighborhood key, no live body is keyed to it.
pub proof fn lemma_no_bucket_complete(
    h: SpatialHash, positions: Seq<V2>, alive: Seq<bool>, bodies: Seq<Body>,
    removed: Seq<bool>, a: int, nk: CellKey, t: int, kax: int, kay: int,
)
    requires
        hash_wf(h, positions, alive),
        bodies.len() == positions.len(),
        removed.len() == positions.len(),
        0 <= a < positions.len(),
        0 <= t < 9,
        nk == (CellKey { x: (kax + off_dx(t)) as i64, y: (kay + off_dy(t)) as i64 }),
        -0x4000_0000_0000_0001 <= kax <= 0x4000_0000_0000_0000,
        -0x4000_0000_0000_0001 <= kay <= 0x4000_0000_0000_0000,
        !removed[a],
        forall|j: int| 0 <= j < h.buckets@.len() ==> (#[trigger] h.buckets@[j].key) != nk,
        forall|b: int|
            0 <= b < positions.len() && b != a && alive[b]
                && #[trigger] overlapping(bodies, positions, a, b)
                && scanned(t, kax, kay, key_of(h.cell as int, positions[b]).x as int,
                    key_of(h.cell as int, positions[b]).y as int)
                ==> removed[b],
    ensures
        forall|b: int|
            0 <= b < positions.len() && b != a && alive[b]
                && #[trigger] overlapping(bodies, positions, a, b)
                && scanned(t + 1, kax, kay, key_of(h.cell as int, positions[b]).x as int,
                    key_of(h.cell as int, positions[b]).y as int)
                ==> removed[b],
{
    assert forall|b: int|
        0 <= b < positions.len() && b != a && alive[b]
            && #[trigger] overlapping(bodies, positions, a, b)
            && scanned(t + 1, kax, kay, key_of(h.cell as int, positions[b]).x as int,
                key_of(h.cell as int, positions[b]).y as int)
        implies removed[b]
    by {
        let kb = key_of(h.cell as int, positions[b]);
        let u = choose|u: int| 0 <= u < t + 1 && kb.x as int == kax + #[trigger] off_dx(u)
            && kb.y as int == kay + off_dy(u);
        if u < t {
            assert(scanned(t, kax, kay, kb.x as int, kb.y as int));
        } else {
            assert(kb == nk);
            let (j0, v0): (int, int) = choose|j0: int, v0: int|
                0 <= j0 < h.buckets@.len() && 0 <= v0 < h.buckets@[j0].items@.len()
                    && #[trigger] h.buckets@[j0].items@[v0] == b;
            assert(h.buckets@[j0].key == kb);
            assert(false);
        }
    }
}


/// Whether some instruction crowns body `x`.
pub open spec fn is_winner(merges: Seq<Merge>, x: int) -> bool {
    exists|k: int| 0 <= k < merges.len() && (#[trigger] merges[k]).winner == x
}


/// Pushing a merge extends the winner set by exactly its winner.
pub proof fn lemma_winner_push(merges: Seq<Merge>, m: Merge)
    ensures
        forall|x: int| is_winner(merges.push(m), x)
            == (is_winner(merges, x) || m.winner == x),
{
    assert forall|x: int| is_winner(merges.push(m), x)
        implies (is_winner(merges, x) || m.winner == x)
    by {
        let kk = choose|kk: int| 0 <= kk < merges.push(m).len()
            && (#[trigger] merges.push(m)[kk]).winner == x;
        if kk < merges.len() {
            assert(merges[kk].winner == x);
        }
    }
    assert forall|x: int| (is_winner(merges, x) || m.winner == x)
        implies is_winner(merges.push(m), x)
    by {
        if is_winner(merges, x) {
            let kk = choose|kk: int| 0 <= kk < merges.len()
                && (#[trigger] merges[kk]).winner == x;
            assert(merges.push(m)[kk].winner == x);
        } else {
            assert(merges.push(m)[merges.len() as int].winner == x);
        }
    }
}

/// The decide pass's structural guarantees that the apply pass relies on:
/// in-range distinct participants, losers pairwise distinct and never a
/// later winner, and merge results within the engine's caps.
pub open spec fn merges_ok(merges: Seq<Merge>, bodies: Seq<Body>, alive: Seq<bool>) -> bool {
    &&& forall|k: int| 0 <= k < merges.len() ==> {
        let m = #[trigger] merges[k];
        &&& m.winner < bodies.len()
        &&& m.loser < bodies.len()
        &&& m.winner != m.loser
        &&& alive[m.winner as int]
        &&& alive[m.loser as int]
        &&& 0 < m.new_mass
    }
    &&& forall|k1: int, k2: int| 0 <= k1 < k2 < merges.len()
        ==> (#[trigger] merges[k1]).loser != (#[trigger] merges[k2]).loser
            && merges[k1].loser != merges[k2].winner
}

/// The body an applied merge leaves at the winner slot: the merged mass,
/// the class derived from it, the merged velocity, the old acceleration.
pub open spec fn merged_body(prev: Body, m: Merge) -> Body {
    Body {
        mass: m.new_mass,
        vel: m.new_vel,
        acc: prev.acc,
        class: class_of(m.new_mass as int),
    }
}

/// The absorb apply pass: walk the instructions in order; each winner
/// takes its merged mass (and the class that mass implies) and merged
/// velocity, and each loser is despawned. Under the decide pass's
/// guarantees every instruction applies. Returns whether a merge consumed
/// the player.
#[verifier::rlimit(100)]
#[verifier::spinoff_prover]
pub fn absorb_apply(bodies: &mut Vec<Body>, alive: &mut Vec<bool>, merges: &Vec<Merge>)
    -> (player_died: bool)
    requires
        old(bodies)@.len() == old(alive)@.len(),
        merges_ok(merges@, old(bodies)@, old(alive)@),
    ensures
        final(bodies)@.len() == old(bodies)@.len(),
        final(alive)@.len() == old(alive)@.len(),
        forall|x: int| 0 <= x < old(bodies)@.len()
            ==> (#[trigger] final(alive)@[x])
                == (old(alive)@[x] && !is_loser(merges@, x)),
        forall|x: int| 0 <= x < old(bodies)@.len()
            && !is_winner(merges@, x) && !is_loser(merges@, x)
            ==> (#[trigger] final(bodies)@[x]) == old(bodies)@[x],
        forall|k: int| 0 <= k < merges@.len()
            && (forall|k2: int| 0 <= k2 < merges@.len() && k2 != k
                ==> (#[trigger] merges@[k2]).winner != merges@[k].winner)
            ==> (#[trigger] final(bodies)@[merges@[k].winner as int])
                == merged_body(old(bodies)@[merges@[k].winner as int], merges@[k]),
        forall|x: int| 0 <= x < old(bodies)@.len() && is_winner(merges@, x)
            ==> exists|k: int| 0 <= k < merges@.len()
                && (#[trigger] merges@[k]).winner == x
                && final(bodies)@[x] == merged_body(old(bodies)@[x], merges@[k]),
        forall|x: int| 0 <= x < old(bodies)@.len()
            ==> (#[trigger] final(bodies)@[x]).acc == old(bodies)@[x].acc,
        player_died == exists|k: int|
            0 <= k < merges@.len() && (#[trigger] merges@[k]).player_died,
{
    let ghost bodies0 = bodies@;
    let ghost alive0 = alive@;
    let mut died: bool = false;
    let mut k: usize = 0;
    while k < merges.len()
        invariant
            bodies@.len() == bodies0.len(),
            alive@.len() == alive0.len(),
            bodies0.len() == alive0.len(),
            merges_ok(merges@, bodies0, alive0),
            k <= merges@.len(),
            forall|x: int| 0 <= x < bodies0.len()
                ==> (#[trigger] alive@[x])
                    == (alive0[x] && !is_loser(merges@.take(k as int), x)),
            forall|x: int| 0 <= x < bodies0.len()
                && !is_winner(merges@.take(k as int), x)
                ==> (#[trigger] bodies@[x]) == bodies0[x],
            forall|k1: int| 0 <= k1 < k
                && (forall|k2: int| 0 <= k2 < merges@.len() && k2 != k1
                    ==> (#[trigger] merges@[k2]).winner != merges@[k1].winner)
                ==> (#[trigger] bodies@[merges@[k1].winner as int])
                    == merged_body(bodies0[merges@[k1].winner as int], merges@[k1]),
            forall|x: int| 0 <= x < bodies0.len()
                ==> (#[trigger] bodies@[x]).acc == bodies0[x].acc,
            forall|x: int| 0 <= x < bodies0.len() && is_winner(merges@.take(k as int), x)
                ==> exists|k1: int| 0 <= k1 < merges@.len()
                    && (#[trigger] merges@[k1]).winner == x
                    && bodies@[x] == merged_body(bodies0[x], merges@[k1]),
            died == exists|k1: int| 0 <= k1 < k && (#[trigger] merges@[k1]).player_died,
        decreases merges@.len() - k,
    {
        let m_winner = merges[k].winner;
        let m_loser = merges[k].loser;
        let ghost bpre = bodies@;
        proof {
            assert(forall|x: int| 0 <= x < bodies0.len()
                && is_winner(merges@.take(k as int), x)
                ==> exists|k1: int| 0 <= k1 < merges@.len()
                    && (#[trigger] merges@[k1]).winner == x
                    && bpre[x] == merged_body(bodies0[x], merges@[k1]));
            assert(merges@[k as int].winner < bodies0.len());
            // the winner is still alive: it is never an earlier loser
            if is_loser(merges@.take(k as int), m_winner as int) {
                let k1 = choose|k1: int| 0 <= k1 < k
                    && (#[trigger] merges@.take(k as int)[k1]).loser == m_winner as int;
                assert(merges@[k1].loser == merges@[k as int].winner);
                assert(false);
            }
            // the loser is still alive: losers are pairwise distinct
            if is_loser(merges@.take(k as int), m_loser as int) {
                let k1 = choose|k1: int| 0 <= k1 < k
                    && (#[trigger] merges@.take(k as int)[k1]).loser == m_loser as int;
                assert(merges@[k1].loser == merges@[k as int].loser);
                assert(false);
            }
        }
        if alive[m_loser] && alive[m_winner] {
            let prev = bodies[m_winner];
            let new_mass = merges[k].new_mass;
            let new_class = Class::from_mass(new_mass);
            bodies.set(m_winner, Body {
                mass: new_mass,
                vel: merges[k].new_vel,
                acc: prev.acc,
                class: new_class,
            });
            alive.set(m_loser, false);
            if merges[k].player_died {
                died = true;
            }
        }
        k = k + 1;
        proof {
            assert(merges@.take(k as int) == merges@.take(k as int - 1).push(
                merges@[k as int - 1]));
            lemma_loser_push(merges@.take(k as int - 1), merges@[k as int - 1],
                bodies0.len() as int);
            lemma_winner_push(merges@.take(k as int - 1), merges@[k as int - 1]);
            assert forall|x: int| 0 <= x < bodies0.len()
                && is_winner(merges@.take(k as int), x)
                implies exists|k1: int| 0 <= k1 < merges@.len()
                    && (#[trigger] merges@[k1]).winner == x
                    && bodies@[x] == merged_body(bodies0[x], merges@[k1])
            by {
                if merges@[k as int - 1].winner == x {
                    assert(merges@[k as int - 1].winner == x
                        && bodies@[x] == merged_body(bodies0[x], merges@[k as int - 1]));
                } else {
                    assert(is_winner(merges@.take(k as int - 1), x));
                    let k1 = choose|k1: int| 0 <= k1 < merges@.len()
                        && (#[trigger] merges@[k1]).winner == x
                        && bpre[x] == merged_body(bodies0[x], merges@[k1]);
                    assert(bodies@[x] == bpre[x]);
                    assert(merges@[k1].winner == x
                        && bodies@[x] == merged_body(bodies0[x], merges@[k1]));
                }
            }
        }
    }
    proof {
        assert(merges@.take(merges@.len() as int) == merges@);
    }
    died
}


/// The snapshot values an elastic resolution writes back for one pair:
/// separated positions and post-collision velocities.
pub struct ElasticOutcome {
    pub pax: int,
    pub pay: int,
    pub pbx: int,
    pub pby: int,
    pub vax: int,
    pub vay: int,
    pub vbx: int,
    pub vby: int,
}

/// The elastic resolution of an overlapping pair at distance > 0:
/// push both bodies back along the unit normal by half the overlap,
/// apply the 1-D restitution formula to the normal velocity components,
/// and keep the tangential components (frictionless disks). All divisions
/// are single truncations of exact 128-bit values.
#[verifier::opaque]
pub open spec fn elastic_outcome(
    pa: V2, pb: V2, va: V2, vb: V2, ma: int, mb: int, ra: int, rb: int, e: int,
) -> ElasticOutcome {
    let dx = pb.x - pa.x;
    let dy = pb.y - pa.y;
    let d2 = dx * dx + dy * dy;
    let d = sqrt_floor(d2);
    let nx = tdiv(dx * SCALE, d);
    let ny = tdiv(dy * SCALE, d);
    let rsum = ra + rb;
    let push = tdiv(tdiv(rsum - d, 2) * nx, SCALE as int);
    let pushy = tdiv(tdiv(rsum - d, 2) * ny, SCALE as int);
    let van = tdiv(va.x * nx + va.y * ny, SCALE as int);
    let vat = tdiv(va.y * nx - va.x * ny, SCALE as int);
    let vbn = tdiv(vb.x * nx + vb.y * ny, SCALE as int);
    let vbt = tdiv(vb.y * nx - vb.x * ny, SCALE as int);
    let shared = ma * van + mb * vbn;
    let van2 = tdiv(tdiv(e * mb * (vbn - van), SCALE as int) + shared, ma + mb);
    let vbn2 = tdiv(tdiv(e * ma * (van - vbn), SCALE as int) + shared, ma + mb);
    ElasticOutcome {
        pax: pa.x - push,
        pay: pa.y - pushy,
        pbx: pb.x + push,
        pby: pb.y + pushy,
        vax: tdiv(van2 * nx - vat * ny, SCALE as int),
        vay: tdiv(van2 * ny + vat * nx, SCALE as int),
        vbx: tdiv(vbn2 * nx - vbt * ny, SCALE as int),
        vby: tdiv(vbn2 * ny + vbt * nx, SCALE as int),
    }
}

/// With restitution zero the two bodies leave with one common normal
/// velocity, exactly: both normal components become the same truncated
/// mass-weighted average (perfectly inelastic along the normal).
pub proof fn lemma_elastic_zero_restitution(
    ma: int, mb: int, van: int, vbn: int,
)
    requires
        0 < ma,
        0 < mb,
    ensures
        tdiv(tdiv(0 * mb * (vbn - van), SCALE as int) + (ma * van + mb * vbn), ma + mb)
            == tdiv(tdiv(0 * ma * (van - vbn), SCALE as int) + (ma * van + mb * vbn),
                ma + mb),
{
    assert(0 * mb * (vbn - van) == 0 && 0 * ma * (van - vbn) == 0) by (nonlinear_arith);
}

/// With restitution one, the normal-component update conserves momentum
/// and kinetic energy along the normal exactly, at the level of the exact
/// (pre-truncation) values: writing `w1, w2` for the new normal velocities
/// times the total mass `M = ma + mb`, momentum `ma*w1 + mb*w2` equals the
/// old momentum times `M`, and energy `ma*w1^2 + mb*w2^2` equals the old
/// normal kinetic energy times `M^2`. The executable update truncates each
/// of `w1 / M` and `w2 / M` once, losing less than one velocity quantum.
pub proof fn lemma_elastic_unit_restitution(ma: int, mb: int, van: int, vbn: int)
    requires
        0 < ma,
        0 < mb,
    ensures
        tdiv(SCALE * mb * (vbn - van), SCALE as int)
            == mb * (vbn - van),
        tdiv(SCALE * ma * (van - vbn), SCALE as int)
            == ma * (van - vbn),
        ma * (mb * (vbn - van) + (ma * van + mb * vbn))
            + mb * (ma * (van - vbn) + (ma * van + mb * vbn))
            == (ma * van + mb * vbn) * (ma + mb),
        ma * ((mb * (vbn - van) + (ma * van + mb * vbn))
                * (mb * (vbn - van) + (ma * van + mb * vbn)))
            + mb * ((ma * (van - vbn) + (ma * van + mb * vbn))
                * (ma * (van - vbn) + (ma * van + mb * vbn)))
            == (ma * (van * van) + mb * (vbn * vbn)) * ((ma + mb) * (ma + mb)),
{
    assert(SCALE * mb * (vbn - van) == (mb * (vbn - van)) * SCALE) by (nonlinear_arith);
    crate::fx::lemma_tdiv_exact(mb * (vbn - van), SCALE as int);
    assert(SCALE * ma * (van - vbn) == (ma * (van - vbn)) * SCALE) by (nonlinear_arith);
    crate::fx::lemma_tdiv_exact(ma * (van - vbn), SCALE as int);
    assert(ma * (mb * (vbn - van) + (ma * van + mb * vbn))
        + mb * (ma * (van - vbn) + (ma * van + mb * vbn))
        == (ma * van + mb * vbn) * (ma + mb)) by (nonlinear_arith);
    let w1 = mb * (vbn - van) + (ma * van + mb * vbn);
    let w2 = ma * (van - vbn) + (ma * van + mb * vbn);
    assert(w1 == (ma - mb) * van + (2 * mb) * vbn) by (nonlinear_arith)
        requires w1 == mb * (vbn - van) + (ma * van + mb * vbn);
    assert(w2 == (2 * ma) * van + (mb - ma) * vbn) by (nonlinear_arith)
        requires w2 == ma * (van - vbn) + (ma * van + mb * vbn);
    lemma_square_of_binomial(ma - mb, 2 * mb, van, vbn);
    lemma_square_of_binomial(2 * ma, mb - ma, van, vbn);
    lemma_normal_energy_coefficients(ma, mb, van * van, van * vbn, vbn * vbn);
    assert(w1 * w1 == ((ma - mb) * van + (2 * mb) * vbn)
        * ((ma - mb) * van + (2 * mb) * vbn));
    assert(w2 * w2 == ((2 * ma) * van + (mb - ma) * vbn)
        * ((2 * ma) * van + (mb - ma) * vbn));
    assert(ma * (w1 * w1) + mb * (w2 * w2)
        == (ma * (van * van) + mb * (vbn * vbn)) * ((ma + mb) * (ma + mb)));
}

/// `(p*x + q*y)^2` expanded into monomials.
#[verifier::rlimit(100)]
#[verifier::spinoff_prover]
proof fn lemma_square_of_binomial(p: int, q: int, x: int, y: int)
    ensures
        (p * x + q * y) * (p * x + q * y)
            == p * p * (x * x) + 2 * (p * q) * (x * y) + q * q * (y * y),
{
    broadcast use vstd::arithmetic::mul::group_mul_properties;

    assert((p * x + q * y) * (p * x + q * y)
        == (p * x) * (p * x) + 2 * ((p * x) * (q * y)) + (q * y) * (q * y))
        by (nonlinear_arith);
    assert((p * x) * (p * x) == p * p * (x * x)) by (nonlinear_arith);
    assert((p * x) * (q * y) == (p * q) * (x * y)) by (nonlinear_arith);
    assert((q * y) * (q * y) == q * q * (y * y)) by (nonlinear_arith);
}

/// The coefficient identity behind normal kinetic-energy conservation,
/// with the velocity monomials held abstract.
#[verifier::rlimit(100)]
#[verifier::spinoff_prover]
proof fn lemma_normal_energy_coefficients(ma: int, mb: int, uu: int, uv: int, vv: int)
    ensures
        ma * ((ma - mb) * (ma - mb) * uu + 2 * ((ma - mb) * (2 * mb)) * uv
                + (2 * mb) * (2 * mb) * vv)
            + mb * ((2 * ma) * (2 * ma) * uu + 2 * ((2 * ma) * (mb - ma)) * uv
                + (mb - ma) * (mb - ma) * vv)
            == (ma * uu + mb * vv) * ((ma + mb) * (ma + mb)),
{
    broadcast use vstd::arithmetic::mul::group_mul_properties;

    assert(ma * ((ma - mb) * (ma - mb) * uu + 2 * ((ma - mb) * (2 * mb)) * uv
            + (2 * mb) * (2 * mb) * vv)
        + mb * ((2 * ma) * (2 * ma) * uu + 2 * ((2 * ma) * (mb - ma)) * uv
            + (mb - ma) * (mb - ma) * vv)
        == (ma * uu + mb * vv) * ((ma + mb) * (ma + mb)));
}



/// `lemma_bucket_complete` for the elastic scan, whose pairs must also
/// sit at distinct positions.
pub proof fn lemma_bucket_complete_distinct(
    h: SpatialHash, positions: Seq<V2>, alive: Seq<bool>, bodies: Seq<Body>,
    done: Seq<bool>, a: int, bj: int, t: int, kax: int, kay: int,
)
    requires
        hash_wf(h, positions, alive),
        bodies.len() == positions.len(),
        done.len() == positions.len(),
        0 <= a < positions.len(),
        0 <= bj < h.buckets@.len(),
        0 <= t < 9,
        h.buckets@[bj].key == (CellKey {
            x: (kax + off_dx(t)) as i64,
            y: (kay + off_dy(t)) as i64,
        }),
        -0x4000_0000_0000_0001 <= kax <= 0x4000_0000_0000_0000,
        -0x4000_0000_0000_0001 <= kay <= 0x4000_0000_0000_0000,
        !done[a],
        forall|b: int|
            0 <= b < positions.len() && b != a && alive[b]
                && #[trigger] overlapping(bodies, positions, a, b)
                && positions[a] != positions[b]
                && scanned(t, kax, kay, key_of(h.cell as int, positions[b]).x as int,
                    key_of(h.cell as int, positions[b]).y as int)
                ==> done[b],
        forall|v: int|
            0 <= v < h.buckets@[bj].items@.len() ==> {
                let b = #[trigger] h.buckets@[bj].items@[v];
                b == a || done[b as int]
                    || !overlapping(bodies, positions, a, b as int)
                    || positions[a] == positions[b as int]
            },
    ensures
        forall|b: int|
            0 <= b < positions.len() && b != a && alive[b]
                && #[trigger] overlapping(bodies, positions, a, b)
                && positions[a] != positions[b]
                && scanned(t + 1, kax, kay, key_of(h.cell as int, positions[b]).x as int,
                    key_of(h.cell as int, positions[b]).y as int)
                ==> done[b],
{
    assert forall|b: int|
        0 <= b < positions.len() && b != a && alive[b]
            && #[trigger] overlapping(bodies, positions, a, b)
            && positions[a] != positions[b]
            && scanned(t + 1, kax, kay, key_of(h.cell as int, positions[b]).x as int,
                key_of(h.cell as int, positions[b]).y as int)
        implies done[b]
    by {
        let kb = key_of(h.cell as int, positions[b]);
        let u = choose|u: int| 0 <= u < t + 1 && kb.x as int == kax + #[trigger] off_dx(u)
            && kb.y as int == kay + off_dy(u);
        if u < t {
            assert(scanned(t, kax, kay, kb.x as int, kb.y as int));
        } else {
            assert(kb == h.buckets@[bj].key);
            let (j0, v0): (int, int) = choose|j0: int, v0: int|
                0 <= j0 < h.buckets@.len() && 0 <= v0 < h.buckets@[j0].items@.len()
                    && #[trigger] h.buckets@[j0].items@[v0] == b;
            assert(h.buckets@[j0].key == kb);
            if j0 != bj {
                assert(h.buckets@[j0].key != h.buckets@[bj].key);
            }
            assert(h.buckets@[bj].items@[v0] == b);
        }
    }
}

/// `lemma_no_bucket_complete` for the elastic scan.
pub proof fn lemma_no_bucket_complete_distinct(
    h: SpatialHash, positions: Seq<V2>, alive: Seq<bool>, bodies: Seq<Body>,
    done: Seq<bool>, a: int, nk: CellKey, t: int, kax: int, kay: int,
)
    requires
        hash_wf(h, positions, alive),
        bodies.len() == positions.len(),
        done.len() == positions.len(),
        0 <= a < positions.len(),
        0 <= t < 9,
        nk == (CellKey { x: (kax + off_dx(t)) as i64, y: (kay + off_dy(t)) as i64 }),
        -0x4000_0000_0000_0001 <= kax <= 0x4000_0000_0000_0000,
        -0x4000_0000_0000_0001 <= kay <= 0x4000_0000_0000_0000,
        !done[a],
        forall|j: int| 0 <= j < h.buckets@.len() ==> (#[trigger] h.buckets@[j].key) != nk,
        forall|b: int|
            0 <= b < positions.len() && b != a && alive[b]
                && #[trigger] overlapping(bodies, positions, a, b)
                && positions[a] != positions[b]
                && scanned(t, kax, kay, key_of(h.cell as int, positions[b]).x as int,
                    key_of(h.cell as int, positions[b]).y as int)
                ==> done[b],
    ensures
        forall|b: int|
            0 <= b < positions.len() && b != a && alive[b]
                && #[trigger] overlapping(bodies, positions, a, b)
                && positions[a] != positions[b]
                && scanned(t + 1, kax, kay, key_of(h.cell as int, positions[b]).x as int,
                    key_of(h.cell as int, positions[b]).y as int)
                ==> done[b],
{
    assert forall|b: int|
        0 <= b < positions.len() && b != a && alive[b]
            && #[trigger] overlapping(bodies, positions, a, b)
            && positions[a] != positions[b]
            && scanned(t + 1, kax, kay, key_of(h.cell as int, positions[b]).x as int,
                key_of(h.cell as int, positions[b]).y as int)
        implies done[b]
    by {
        let kb = key_of(h.cell as int, positions[b]);
        let u = choose|u: int| 0 <= u < t + 1 && kb.x as int == kax + #[trigger] off_dx(u)
            && kb.y as int == kay + off_dy(u);
        if u < t {
            assert(scanned(t, kax, kay, kb.x as int, kb.y as int));
        } else {
            assert(kb == nk);
            let (j0, v0): (int, int) = choose|j0: int, v0: int|
                0 <= j0 < h.buckets@.len() && 0 <= v0 < h.buckets@[j0].items@.len()
                    && #[trigger] h.buckets@[j0].items@[v0] == b;
            assert(h.buckets@[j0].key == kb);
            assert(false);
        }
    }
}

/// One elastic write-back: the body at `idx` takes a corrected position
/// and velocity.
pub struct ElasticUpdate {
    pub idx: usize,
    pub new_vel: V2,
    pub new_pos: V2,
}

/// Whether some elastic update touches body `x`.
pub open spec fn is_updated(updates: Seq<ElasticUpdate>, x: int) -> bool {
    exists|q: int| 0 <= q < updates.len() && (#[trigger] updates[q]).idx == x
}

/// Updates `2p` and `2p+1` resolve one live overlapping pair at positive
/// distance, with exactly the `elastic_outcome` values. A pair at exactly
/// zero distance has no defined normal and is never resolved.
pub open spec fn valid_elastic_pair(
    u1: ElasticUpdate, u2: ElasticUpdate, bodies: Seq<Body>, positions: Seq<V2>,
    alive: Seq<bool>, e: int,
) -> bool {
    let a = u1.idx as int;
    let b = u2.idx as int;
    let out = elastic_outcome(positions[a], positions[b], bodies[a].vel, bodies[b].vel,
        bodies[a].mass as int, bodies[b].mass as int, radius_spec(bodies[a].mass as int),
        radius_spec(bodies[b].mass as int), e);
    &&& a < bodies.len() && b < bodies.len() && a != b
    &&& alive[a] && alive[b]
    &&& overlapping(bodies, positions, a, b)
    &&& positions[a] != positions[b]
    &&& u1.new_pos.x == out.pax && u1.new_pos.y == out.pay
    &&& u2.new_pos.x == out.pbx && u2.new_pos.y == out.pby
    &&& u1.new_vel.x == out.vax && u1.new_vel.y == out.vay
    &&& u2.new_vel.x == out.vbx && u2.new_vel.y == out.vby
}

/// Compute the elastic resolution of one overlapping pair (executable
/// twin of `elastic_outcome`).
fn elastic_pair_exec(
    pa: V2, pb: V2, va: V2, vb: V2, ma: i64, mb: i64, ra: i64, rb: i64, e: i64,
) -> (r: (V2, V2, V2, V2))
    requires
        -RESOLVE_POS_CAP <= pa.x <= RESOLVE_POS_CAP,
        -RESOLVE_POS_CAP <= pa.y <= RESOLVE_POS_CAP,
        -RESOLVE_POS_CAP <= pb.x <= RESOLVE_POS_CAP,
        -RESOLVE_POS_CAP <= pb.y <= RESOLVE_POS_CAP,
        -RESOLVE_VEL_CAP <= va.x <= RESOLVE_VEL_CAP,
        -RESOLVE_VEL_CAP <= va.y <= RESOLVE_VEL_CAP,
        -RESOLVE_VEL_CAP <= vb.x <= RESOLVE_VEL_CAP,
        -RESOLVE_VEL_CAP <= vb.y <= RESOLVE_VEL_CAP,
        0 < ma <= MASS_LIMIT,
        0 < mb <= MASS_LIMIT,
        78643 <= ra <= 3932160,
        78643 <= rb <= 3932160,
        0 <= e <= SCALE,
        pa != pb,
        (pb.x - pa.x) * (pb.x - pa.x) + (pb.y - pa.y) * (pb.y - pa.y)
            <= (ra + rb) * (ra + rb),
    ensures
        ({
            let out = elastic_outcome(pa, pb, va, vb, ma as int, mb as int, ra as int,
                rb as int, e as int);
            &&& r.0.x == out.pax && r.0.y == out.pay
            &&& r.1.x == out.pbx && r.1.y == out.pby
            &&& r.2.x == out.vax && r.2.y == out.vay
            &&& r.3.x == out.vbx && r.3.y == out.vby
            &&& -0x20_0000_0000 <= r.2.x <= 0x20_0000_0000
            &&& -0x20_0000_0000 <= r.2.y <= 0x20_0000_0000
            &&& -0x20_0000_0000 <= r.3.x <= 0x20_0000_0000
            &&& -0x20_0000_0000 <= r.3.y <= 0x20_0000_0000
            &&& -RESOLVE_POS_CAP - 0x1000000 <= r.0.x <= RESOLVE_POS_CAP + 0x1000000
            &&& -RESOLVE_POS_CAP - 0x1000000 <= r.0.y <= RESOLVE_POS_CAP + 0x1000000
            &&& -RESOLVE_POS_CAP - 0x1000000 <= r.1.x <= RESOLVE_POS_CAP + 0x1000000
            &&& -RESOLVE_POS_CAP - 0x1000000 <= r.1.y <= RESOLVE_POS_CAP + 0x1000000
        }),
{
    let dx: i128 = pb.x as i128 - pa.x as i128;
    let dy: i128 = pb.y as i128 - pa.y as i128;
    proof {
        lemma_sq_range(dx as int);
        lemma_sq_range(dy as int);
        if dx == 0 && dy == 0 {
            assert(pa.x == pb.x && pa.y == pb.y);
            assert(pa == pb);
        }
        assert(dx * dx >= 0 && dy * dy >= 0 && (dx != 0 || dy != 0)
            ==> dx * dx + dy * dy >= 1) by (nonlinear_arith);
    }
    let d2: i128 = dx * dx + dy * dy;
    let rsum: i64 = ra + rb;
    let dq: u128 = crate::fx::isqrt(d2 as u128);
    proof {
        crate::fx::lemma_sqrt_ge(d2 as int, 1);
        assert(d2 < (rsum as int + 1) * (rsum as int + 1)) by (nonlinear_arith)
            requires d2 <= (rsum as int) * (rsum as int), rsum > 0;
        crate::body::lemma_root_small(dq as int, d2 as int, rsum as int + 1);
        assert((if dx >= 0 { dx as int } else { -(dx as int) })
            * (if dx >= 0 { dx as int } else { -(dx as int) }) <= d2 as int)
            by (nonlinear_arith)
            requires dx * dx + dy * dy == d2, dy * dy >= 0;
        assert((if dy >= 0 { dy as int } else { -(dy as int) })
            * (if dy >= 0 { dy as int } else { -(dy as int) }) <= d2 as int)
            by (nonlinear_arith)
            requires dx * dx + dy * dy == d2, dx * dx >= 0;
        crate::fx::lemma_sqrt_ge(d2 as int, if dx >= 0 { dx as int } else { -(dx as int) });
        crate::fx::lemma_sqrt_ge(d2 as int, if dy >= 0 { dy as int } else { -(dy as int) });
    }
    let d: i128 = dq as i128;
    proof {
        assert(-(d * (SCALE as int)) <= dx * (SCALE as int) <= d * (SCALE as int)
            && -(d * (SCALE as int)) <= dy * (SCALE as int) <= d * (SCALE as int))
            by (nonlinear_arith)
            requires -d <= dx <= d, -d <= dy <= d, d >= 1, SCALE == 65536;
        crate::fx::lemma_tdiv_bound(dx as int * SCALE as int, d as int, SCALE as int);
        crate::fx::lemma_tdiv_bound(dy as int * SCALE as int, d as int, SCALE as int);
    }
    let nx: i64 = crate::fx::div_wide(dx * SCALE as i128, d);
    let ny: i64 = crate::fx::div_wide(dy * SCALE as i128, d);
    let ov: i64 = crate::fx::div_fix(rsum - (d as i64), 2);
    proof {
        assert(-((SCALE as int) * 0x800000) <= ov as int * nx as int
            <= (SCALE as int) * 0x800000
            && -((SCALE as int) * 0x800000) <= ov as int * ny as int
            <= (SCALE as int) * 0x800000) by (nonlinear_arith)
            requires
                -0x800000 <= ov <= 0x800000,
                -SCALE <= nx <= SCALE,
                -SCALE <= ny <= SCALE,
                SCALE == 65536;
        crate::fx::lemma_tdiv_bound(ov as int * nx as int, SCALE as int, 0x800000);
        crate::fx::lemma_tdiv_bound(ov as int * ny as int, SCALE as int, 0x800000);
    }
    let sx: i64 = crate::fx::div_wide(ov as i128 * nx as i128, SCALE as i128);
    let sy: i64 = crate::fx::div_wide(ov as i128 * ny as i128, SCALE as i128);
    let van: i64 = dot_unit(va, nx, ny);
    let vat: i64 = dot_unit(V2 { x: va.y, y: 0 - va.x }, nx, ny);
    let vbn: i64 = dot_unit(vb, nx, ny);
    let vbt: i64 = dot_unit(V2 { x: vb.y, y: 0 - vb.x }, nx, ny);
    proof {
        assert((0 - va.x as int) * (ny as int) == -((va.x as int) * (ny as int))
            && (0 - vb.x as int) * (ny as int) == -((vb.x as int) * (ny as int)))
            by (nonlinear_arith);
        assert(vat as int == tdiv(
            va.y as int * nx as int - va.x as int * ny as int, SCALE as int));
        assert(vbt as int == tdiv(
            vb.y as int * nx as int - vb.x as int * ny as int, SCALE as int));
    }
    proof {
        lemma_normal_terms(ma as int, mb as int, van as int, vbn as int, e as int);
    }
    let shared: i128 = ma as i128 * van as i128 + mb as i128 * vbn as i128;
    let ta: i128 = crate::fx::div_keep_wide(
        e as i128 * mb as i128 * (vbn as i128 - van as i128), SCALE as i128);
    let tb: i128 = crate::fx::div_keep_wide(
        e as i128 * ma as i128 * (van as i128 - vbn as i128), SCALE as i128);
    proof {
        lemma_normal_update(ma as int, mb as int, van as int, vbn as int, ta as int,
            tb as int);
    }
    let van2: i64 = crate::fx::div_wide(ta + shared, ma as i128 + mb as i128);
    let vbn2: i64 = crate::fx::div_wide(tb + shared, ma as i128 + mb as i128);
    let vax: i64 = recombine(van2, nx, vat, ny, true);
    let vay: i64 = recombine(van2, ny, vat, nx, false);
    let vbx: i64 = recombine(vbn2, nx, vbt, ny, true);
    let vby: i64 = recombine(vbn2, ny, vbt, nx, false);
    let result = (
        V2 { x: pa.x - sx, y: pa.y - sy },
        V2 { x: pb.x + sx, y: pb.y + sy },
        V2 { x: vax, y: vay },
        V2 { x: vbx, y: vby },
    );
    proof {
        reveal(elastic_outcome);
        let out = elastic_outcome(pa, pb, va, vb, ma as int, mb as int, ra as int,
            rb as int, e as int);
        assert(result.0.x == out.pax && result.0.y == out.pay);
        assert(result.1.x == out.pbx && result.1.y == out.pby);
        assert(result.2.x == out.vax && result.2.y == out.vay);
        assert(result.3.x == out.vbx && result.3.y == out.vby);
    }
    result
}

/// `tdiv(v . n, SCALE)` for an approximately-unit normal: the component of
/// a velocity along it.
fn dot_unit(v: V2, nx: i64, ny: i64) -> (r: i64)
    requires
        -0x80000000 <= v.x <= 0x80000000,
        -0x80000000 <= v.y <= 0x80000000,
        -SCALE <= nx <= SCALE,
        -SCALE <= ny <= SCALE,
    ensures
        r == tdiv(v.x as int * nx as int + v.y as int * ny as int, SCALE as int),
        -0x2_0000_0000 <= r <= 0x2_0000_0000,
{
    proof {
        assert(-((SCALE as int) * 0x2_0000_0000) <= v.x as int * nx as int
            + v.y as int * ny as int <= (SCALE as int) * 0x2_0000_0000
            && -0x1_0000_00000000int <= v.x as int * nx as int <= 0x1_0000_00000000int
            && -0x1_0000_00000000int <= v.y as int * ny as int <= 0x1_0000_00000000int)
            by (nonlinear_arith)
            requires
                -0x80000000 <= v.x <= 0x80000000,
                -0x80000000 <= v.y <= 0x80000000,
                -SCALE <= nx <= SCALE,
                -SCALE <= ny <= SCALE,
                SCALE == 65536;
        crate::fx::lemma_tdiv_bound(v.x as int * nx as int + v.y as int * ny as int,
            SCALE as int, 0x2_0000_0000);
    }
    crate::fx::div_wide(v.x as i128 * nx as i128 + v.y as i128 * ny as i128,
        SCALE as i128)
}

/// Rebuild one velocity component from normal and tangential parts:
/// `tdiv(a*u - b*w, SCALE)` (minus form) or `tdiv(a*u + b*w, SCALE)`.
fn recombine(a: i64, u: i64, b: i64, w: i64, minus: bool) -> (r: i64)
    requires
        -0x10_0000_0000 <= a <= 0x10_0000_0000,
        -0x2_0000_0000 <= b <= 0x2_0000_0000,
        -SCALE <= u <= SCALE,
        -SCALE <= w <= SCALE,
    ensures
        minus ==> r == tdiv(a as int * u as int - b as int * w as int, SCALE as int),
        !minus ==> r == tdiv(a as int * u as int + b as int * w as int, SCALE as int),
        -0x20_0000_0000 <= r <= 0x20_0000_0000,
{
    proof {
        assert(-((SCALE as int) * 0x20_0000_0000) <= a as int * u as int
            - b as int * w as int <= (SCALE as int) * 0x20_0000_0000
            && -((SCALE as int) * 0x20_0000_0000) <= a as int * u as int
            + b as int * w as int <= (SCALE as int) * 0x20_0000_0000)
            by (nonlinear_arith)
            requires
                -0x10_0000_0000 <= a <= 0x10_0000_0000,
                -0x2_0000_0000 <= b <= 0x2_0000_0000,
                -SCALE <= u <= SCALE,
                -SCALE <= w <= SCALE,
                SCALE == 65536;
        crate::fx::lemma_tdiv_bound(a as int * u as int - b as int * w as int,
            SCALE as int, 0x20_0000_0000);
        crate::fx::lemma_tdiv_bound(a as int * u as int + b as int * w as int,
            SCALE as int, 0x20_0000_0000);
    }
    if minus {
        crate::fx::div_wide(a as i128 * u as i128 - b as i128 * w as i128,
            SCALE as i128)
    } else {
        crate::fx::div_wide(a as i128 * u as i128 + b as i128 * w as i128,
            SCALE as i128)
    }
}

/// Range facts for the restitution terms.
pub proof fn lemma_normal_terms(ma: int, mb: int, van: int, vbn: int, e: int)
    requires
        0 < ma <= MASS_LIMIT,
        0 < mb <= MASS_LIMIT,
        -0x2_0000_0000 <= van <= 0x2_0000_0000,
        -0x2_0000_0000 <= vbn <= 0x2_0000_0000,
        0 <= e <= SCALE,
    ensures
        -(SCALE * (mb * 0x4_0000_0000)) <= e * mb * (vbn - van)
            <= SCALE * (mb * 0x4_0000_0000),
        -(SCALE * (ma * 0x4_0000_0000)) <= e * ma * (van - vbn)
            <= SCALE * (ma * 0x4_0000_0000),
        0 <= e * mb <= 0x100_00000000_00010000int,
        0 <= e * ma <= 0x100_00000000_00010000int,
        -0x200_00000000_00000000int <= ma * van <= 0x200_00000000_00000000int,
        -0x200_00000000_00000000int <= mb * vbn <= 0x200_00000000_00000000int,
        mb * 0x4_0000_0000 <= 0x400_00000000_00000000int,
        ma * 0x4_0000_0000 <= 0x400_00000000_00000000int,
        -tdiv_cap() <= tdiv(e * mb * (vbn - van), SCALE as int) <= tdiv_cap(),
        -tdiv_cap() <= tdiv(e * ma * (van - vbn), SCALE as int) <= tdiv_cap(),
{
    assert(0 <= e * mb <= 0x100_00000000_00010000int
        && 0 <= e * ma <= 0x100_00000000_00010000int) by (nonlinear_arith)
        requires
            0 < ma <= MASS_LIMIT,
            0 < mb <= MASS_LIMIT,
            0 <= e <= SCALE,
            MASS_LIMIT == 0x100_00000000,
            SCALE == 65536;
    assert(-(SCALE * (mb * 0x4_0000_0000)) <= e * mb * (vbn - van)
        <= SCALE * (mb * 0x4_0000_0000)) by (nonlinear_arith)
        requires
            0 < mb,
            -0x2_0000_0000 <= van <= 0x2_0000_0000,
            -0x2_0000_0000 <= vbn <= 0x2_0000_0000,
            0 <= e <= SCALE;
    assert(-(SCALE * (ma * 0x4_0000_0000)) <= e * ma * (van - vbn)
        <= SCALE * (ma * 0x4_0000_0000)) by (nonlinear_arith)
        requires
            0 < ma,
            -0x2_0000_0000 <= van <= 0x2_0000_0000,
            -0x2_0000_0000 <= vbn <= 0x2_0000_0000,
            0 <= e <= SCALE;
    assert(-0x200_00000000_00000000int <= ma * van <= 0x200_00000000_00000000int
        && -0x200_00000000_00000000int <= mb * vbn <= 0x200_00000000_00000000int)
        by (nonlinear_arith)
        requires
            0 < ma <= MASS_LIMIT,
            0 < mb <= MASS_LIMIT,
            -0x2_0000_0000 <= van <= 0x2_0000_0000,
            -0x2_0000_0000 <= vbn <= 0x2_0000_0000,
            MASS_LIMIT == 0x100_00000000;
    assert(ma * 0x4_0000_0000 <= 0x400_00000000_00000000int
        && mb * 0x4_0000_0000 <= 0x400_00000000_00000000int) by (nonlinear_arith)
        requires 0 < ma <= MASS_LIMIT, 0 < mb <= MASS_LIMIT, MASS_LIMIT == 0x100_00000000;
    crate::fx::lemma_tdiv_bound(e * mb * (vbn - van), SCALE as int, mb * 0x4_0000_0000);
    crate::fx::lemma_tdiv_bound(e * ma * (van - vbn), SCALE as int, ma * 0x4_0000_0000);
}

/// The common bound on one restitution term (2^74).
pub open spec fn tdiv_cap() -> int {
    0x400_00000000_00000000
}

/// Range facts for the normal-velocity update.
pub proof fn lemma_normal_update(ma: int, mb: int, van: int, vbn: int, ta: int, tb: int)
    requires
        0 < ma <= MASS_LIMIT,
        0 < mb <= MASS_LIMIT,
        -0x2_0000_0000 <= van <= 0x2_0000_0000,
        -0x2_0000_0000 <= vbn <= 0x2_0000_0000,
        -(mb * 0x4_0000_0000) <= ta <= mb * 0x4_0000_0000,
        -(ma * 0x4_0000_0000) <= tb <= ma * 0x4_0000_0000,
    ensures
        -((ma + mb) * 0x10_0000_0000) <= ta + (ma * van + mb * vbn)
            <= (ma + mb) * 0x10_0000_0000,
        -((ma + mb) * 0x10_0000_0000) <= tb + (ma * van + mb * vbn)
            <= (ma + mb) * 0x10_0000_0000,
        -0x10_0000_0000 <= tdiv(ta + (ma * van + mb * vbn), ma + mb) <= 0x10_0000_0000,
        -0x10_0000_0000 <= tdiv(tb + (ma * van + mb * vbn), ma + mb) <= 0x10_0000_0000,
{
    assert(-((ma + mb) * 0x10_0000_0000) <= ta + (ma * van + mb * vbn)
        <= (ma + mb) * 0x10_0000_0000
        && -((ma + mb) * 0x10_0000_0000) <= tb + (ma * van + mb * vbn)
        <= (ma + mb) * 0x10_0000_0000) by (nonlinear_arith)
        requires
            0 < ma,
            0 < mb,
            -0x2_0000_0000 <= van <= 0x2_0000_0000,
            -0x2_0000_0000 <= vbn <= 0x2_0000_0000,
            -(mb * 0x4_0000_0000) <= ta <= mb * 0x4_0000_0000,
            -(ma * 0x4_0000_0000) <= tb <= ma * 0x4_0000_0000;
    crate::fx::lemma_tdiv_bound(ta + (ma * van + mb * vbn), ma + mb, 0x10_0000_0000);
    crate::fx::lemma_tdiv_bound(tb + (ma * van + mb * vbn), ma + mb, 0x10_0000_0000);
}


/// The elastic decide pass: scan bodies in increasing index order; the
/// first still-unprocessed overlapping neighbor at positive distance is
/// resolved with this body (each body takes part in at most one
/// resolution per step), and both write-backs are recorded. Pairs at
/// exactly zero distance have no normal and are skipped untouched.
pub fn elastic_decide(
    bodies: &Vec<Body>,
    positions: &Vec<V2>,
    alive: &Vec<bool>,
    hash: &SpatialHash,
    restitution: i64,
) -> (updates: Vec<ElasticUpdate>)
    requires
        resolve_input_ok(bodies@, positions@, alive@),
        hash_wf(*hash, positions@, alive@),
        0 <= restitution <= SCALE,
    ensures
        updates@.len() % 2 == 0,
        forall|p: int| 0 <= p && 2 * p + 1 < updates@.len()
            ==> valid_elastic_pair(#[trigger] updates@[2 * p], updates@[2 * p + 1],
                bodies@, positions@, alive@, restitution as int),
        forall|q1: int, q2: int| 0 <= q1 < q2 < updates@.len()
            ==> (#[trigger] updates@[q1]).idx != (#[trigger] updates@[q2]).idx,
        forall|q: int| 0 <= q < updates@.len() ==> {
            let u = #[trigger] updates@[q];
            &&& u.idx < bodies@.len()
            &&& -0x20_0000_0000 <= u.new_vel.x <= 0x20_0000_0000
            &&& -0x20_0000_0000 <= u.new_vel.y <= 0x20_0000_0000
            &&& -RESOLVE_POS_CAP - 0x1000000 <= u.new_pos.x <= RESOLVE_POS_CAP + 0x1000000
            &&& -RESOLVE_POS_CAP - 0x1000000 <= u.new_pos.y <= RESOLVE_POS_CAP + 0x1000000
        },
        forall|i: int, j: int|
            0 <= i < bodies@.len() && 0 <= j < bodies@.len() && i != j
                && alive@[i] && alive@[j]
                && #[trigger] overlapping(bodies@, positions@, i, j)
                && positions@[i] != positions@[j]
                && radius_spec(bodies@[i].mass as int) + radius_spec(bodies@[j].mass as int)
                    <= hash.cell
                ==> is_updated(updates@, i) || is_updated(updates@, j),
{
    let n = bodies.len();
    let mut updates: Vec<ElasticUpdate> = Vec::new();
    let mut processed: Vec<bool> = Vec::new();
    let mut ii: usize = 0;
    while ii < n
        invariant
            ii <= n,
            processed@.len() == ii,
            forall|x: int| 0 <= x < ii ==> !(#[trigger] processed@[x]),
        decreases n - ii,
    {
        processed.push(false);
        ii = ii + 1;
    }
    let mut a: usize = 0;
    while a < n
        invariant
            n == bodies@.len(),
            resolve_input_ok(bodies@, positions@, alive@),
            hash_wf(*hash, positions@, alive@),
            0 <= restitution <= SCALE,
            a <= n,
            processed@.len() == n,
            updates@.len() % 2 == 0,
            forall|x: int| 0 <= x < n
                ==> (#[trigger] processed@[x]) == is_updated(updates@, x),
            forall|p: int| 0 <= p && 2 * p + 1 < updates@.len()
                ==> valid_elastic_pair(#[trigger] updates@[2 * p], updates@[2 * p + 1],
                    bodies@, positions@, alive@, restitution as int),
            forall|q1: int, q2: int| 0 <= q1 < q2 < updates@.len()
                ==> (#[trigger] updates@[q1]).idx != (#[trigger] updates@[q2]).idx,
            forall|q: int| 0 <= q < updates@.len() ==> {
                let u = #[trigger] updates@[q];
                &&& u.idx < bodies@.len()
                &&& -0x20_0000_0000 <= u.new_vel.x <= 0x20_0000_0000
                &&& -0x20_0000_0000 <= u.new_vel.y <= 0x20_0000_0000
                &&& -RESOLVE_POS_CAP - 0x1000000 <= u.new_pos.x
                    <= RESOLVE_POS_CAP + 0x1000000
                &&& -RESOLVE_POS_CAP - 0x1000000 <= u.new_pos.y
                    <= RESOLVE_POS_CAP + 0x1000000
            },
            forall|i: int, j: int|
                0 <= i < n && 0 <= j < n && i != j && (i < a || j < a)
                    && alive@[i] && alive@[j]
                    && #[trigger] overlapping(bodies@, positions@, i, j)
                    && positions@[i] != positions@[j]
                    && keys_close(hash.cell as int, positions@, i, j)
                    ==> processed@[i] || processed@[j],
        decreases n - a,
    {
        if alive[a] && !processed[a] {
            let cell = hash.cell;
            proof {
                assert(0 < bodies@[a as int].mass);
            }
            let kax = floor_div(positions[a].x, cell);
            let kay = floor_div(positions[a].y, cell);
            let mut t: usize = 0;
            let mut a_done: bool = false;
            while t < 9 && !a_done
                invariant
                    n == bodies@.len(),
                    resolve_input_ok(bodies@, positions@, alive@),
                    hash_wf(*hash, positions@, alive@),
                    0 <= restitution <= SCALE,
                    a < n,
                    alive@[a as int],
                    cell == hash.cell,
                    t <= 9,
                    processed@.len() == n,
                    updates@.len() % 2 == 0,
                    a_done == processed@[a as int],
                    -0x4000_0000_0000_0001 <= kax <= 0x4000_0000_0000_0000,
                    -0x4000_0000_0000_0001 <= kay <= 0x4000_0000_0000_0000,
                    kax == floor_div_spec(positions@[a as int].x as int, cell as int),
                    kay == floor_div_spec(positions@[a as int].y as int, cell as int),
                    forall|x: int| 0 <= x < n
                        ==> (#[trigger] processed@[x]) == is_updated(updates@, x),
                    forall|i: int, j: int|
                        0 <= i < n && 0 <= j < n && i != j && (i < a || j < a)
                            && alive@[i] && alive@[j]
                            && #[trigger] overlapping(bodies@, positions@, i, j)
                            && positions@[i] != positions@[j]
                            && keys_close(hash.cell as int, positions@, i, j)
                            ==> processed@[i] || processed@[j],
                    !processed@[a as int] ==> forall|b: int|
                        0 <= b < n && b != a && alive@[b]
                            && #[trigger] overlapping(bodies@, positions@, a as int, b)
                            && positions@[a as int] != positions@[b]
                            && scanned(t as int, kax as int, kay as int,
                                key_of(cell as int, positions@[b]).x as int,
                                key_of(cell as int, positions@[b]).y as int)
                            ==> processed@[b],
                    forall|p: int| 0 <= p && 2 * p + 1 < updates@.len()
                        ==> valid_elastic_pair(#[trigger] updates@[2 * p],
                            updates@[2 * p + 1], bodies@, positions@, alive@,
                            restitution as int),
                    forall|q1: int, q2: int| 0 <= q1 < q2 < updates@.len()
                        ==> (#[trigger] updates@[q1]).idx != (#[trigger] updates@[q2]).idx,
                    forall|q: int| 0 <= q < updates@.len() ==> {
                        let u = #[trigger] updates@[q];
                        &&& u.idx < bodies@.len()
                        &&& -0x20_0000_0000 <= u.new_vel.x <= 0x20_0000_0000
                        &&& -0x20_0000_0000 <= u.new_vel.y <= 0x20_0000_0000
                        &&& -RESOLVE_POS_CAP - 0x1000000 <= u.new_pos.x
                            <= RESOLVE_POS_CAP + 0x1000000
                        &&& -RESOLVE_POS_CAP - 0x1000000 <= u.new_pos.y
                            <= RESOLVE_POS_CAP + 0x1000000
                    },
                decreases 9 - t,
            {
                let dxo: i64 = (t % 3) as i64 - 1;
                let dyo: i64 = (t / 3) as i64 - 1;
                let nk = CellKey { x: kax + dxo, y: kay + dyo };
                match hash.find_bucket(nk) {
                    Some(bj) => {
                        let mut u: usize = 0;
                        let items_len = hash.buckets[bj].items.len();
                        while u < items_len && !a_done
                            invariant
                                n == bodies@.len(),
                                resolve_input_ok(bodies@, positions@, alive@),
                                hash_wf(*hash, positions@, alive@),
                                0 <= restitution <= SCALE,
                                a < n,
                                alive@[a as int],
                                cell == hash.cell,
                                bj < hash.buckets@.len(),
                                items_len == hash.buckets@[bj as int].items@.len(),
                                u <= items_len,
                                t < 9,
                                nk.x == kax + off_dx(t as int),
                                nk.y == kay + off_dy(t as int),
                                hash.buckets@[bj as int].key == nk,
                                kax == floor_div_spec(positions@[a as int].x as int,
                                    cell as int),
                                kay == floor_div_spec(positions@[a as int].y as int,
                                    cell as int),
                                -0x4000_0000_0000_0001 <= kax <= 0x4000_0000_0000_0000,
                                -0x4000_0000_0000_0001 <= kay <= 0x4000_0000_0000_0000,
                                processed@.len() == n,
                                updates@.len() % 2 == 0,
                                a_done == processed@[a as int],
                                forall|x: int| 0 <= x < n
                                    ==> (#[trigger] processed@[x])
                                        == is_updated(updates@, x),
                                forall|i: int, j: int|
                                    0 <= i < n && 0 <= j < n && i != j && (i < a || j < a)
                                        && alive@[i] && alive@[j]
                                        && #[trigger] overlapping(bodies@, positions@, i, j)
                                        && positions@[i] != positions@[j]
                                        && keys_close(hash.cell as int, positions@, i, j)
                                        ==> processed@[i] || processed@[j],
                                !processed@[a as int] ==> forall|b: int|
                                    0 <= b < n && b != a && alive@[b]
                                        && #[trigger] overlapping(bodies@, positions@,
                                            a as int, b)
                                        && positions@[a as int] != positions@[b]
                                        && scanned(t as int, kax as int, kay as int,
                                            key_of(cell as int, positions@[b]).x as int,
                                            key_of(cell as int, positions@[b]).y as int)
                                        ==> processed@[b],
                                !processed@[a as int] ==> forall|v: int|
                                    0 <= v < u ==> {
                                        let b = #[trigger] hash.buckets@[
                                            bj as int].items@[v];
                                        b == a as int || processed@[b as int]
                                            || !overlapping(bodies@, positions@, a as int,
                                                b as int)
                                            || positions@[a as int] == positions@[b as int]
                                    },
                                forall|p: int| 0 <= p && 2 * p + 1 < updates@.len()
                                    ==> valid_elastic_pair(#[trigger] updates@[2 * p],
                                        updates@[2 * p + 1], bodies@, positions@, alive@,
                                        restitution as int),
                                forall|q1: int, q2: int|
                                    0 <= q1 < q2 < updates@.len()
                                    ==> (#[trigger] updates@[q1]).idx
                                        != (#[trigger] updates@[q2]).idx,
                                forall|q: int| 0 <= q < updates@.len() ==> {
                                    let uq = #[trigger] updates@[q];
                                    &&& uq.idx < bodies@.len()
                                    &&& -0x20_0000_0000 <= uq.new_vel.x <= 0x20_0000_0000
                                    &&& -0x20_0000_0000 <= uq.new_vel.y <= 0x20_0000_0000
                                    &&& -RESOLVE_POS_CAP - 0x1000000 <= uq.new_pos.x
                                        <= RESOLVE_POS_CAP + 0x1000000
                                    &&& -RESOLVE_POS_CAP - 0x1000000 <= uq.new_pos.y
                                        <= RESOLVE_POS_CAP + 0x1000000
                                },
                            decreases items_len - u,
                        {
                            let b = hash.buckets[bj].items[u];
                            if b != a && !processed[b] {
                                let distinct_pos = positions[a].x != positions[b].x
                                    || positions[a].y != positions[b].y;
                                if distinct_pos && check_overlap(bodies, positions, a, b) {
                                    let ra = Class::radius_for_mass(bodies[a].mass);
                                    let rb = Class::radius_for_mass(bodies[b].mass);
                                    let (npa, npb, nva, nvb) = elastic_pair_exec(
                                        positions[a], positions[b], bodies[a].vel,
                                        bodies[b].vel, bodies[a].mass, bodies[b].mass,
                                        ra, rb, restitution);
                                    let ghost old_updates = updates@;
                                    updates.push(ElasticUpdate {
                                        idx: a,
                                        new_vel: nva,
                                        new_pos: npa,
                                    });
                                    updates.push(ElasticUpdate {
                                        idx: b,
                                        new_vel: nvb,
                                        new_pos: npb,
                                    });
                                    processed.set(a, true);
                                    processed.set(b, true);
                                    a_done = true;
                                    proof {
                                        lemma_updated_push2(old_updates,
                                            updates@[old_updates.len() as int],
                                            updates@[old_updates.len() as int + 1]);
                                        assert(valid_elastic_pair(
                                            updates@[old_updates.len() as int],
                                            updates@[old_updates.len() as int + 1],
                                            bodies@, positions@, alive@,
                                            restitution as int));
                                    }
                                }
                            }
                            u = u + 1;
                        }
                        proof {
                            if !processed@[a as int] {
                                lemma_bucket_complete_distinct(*hash, positions@, alive@,
                                    bodies@, processed@, a as int, bj as int, t as int,
                                    kax as int, kay as int);
                            }
                        }
                    },
                    None => {
                        proof {
                            if !processed@[a as int] {
                                lemma_no_bucket_complete_distinct(*hash, positions@,
                                    alive@, bodies@, processed@, a as int, nk, t as int,
                                    kax as int, kay as int);
                            }
                        }
                    },
                }
                t = t + 1;
            }
            proof {
                if !processed@[a as int] {
                    assert forall|j: int|
                        #![trigger overlapping(bodies@, positions@, a as int, j)]
                        #![trigger overlapping(bodies@, positions@, j, a as int)]
                        0 <= j < n && j != a && alive@[j]
                            && (overlapping(bodies@, positions@, a as int, j)
                                || overlapping(bodies@, positions@, j, a as int))
                            && positions@[a as int] != positions@[j]
                            && (keys_close(hash.cell as int, positions@, a as int, j)
                                || keys_close(hash.cell as int, positions@, j, a as int))
                        implies processed@[j]
                    by {
                        lemma_overlap_sym(bodies@, positions@, a as int, j);
                        assert(0 < bodies@[j].mass);
                        crate::hash::lemma_floor_div_bounds(positions@[j].x as int,
                            cell as int, 0x4000_0000_0000_0000int);
                        crate::hash::lemma_floor_div_bounds(positions@[j].y as int,
                            cell as int, 0x4000_0000_0000_0000int);
                        lemma_scan_covers(kax as int, kay as int,
                            key_of(cell as int, positions@[j]).x as int,
                            key_of(cell as int, positions@[j]).y as int);
                    }
                }
            }
        }
        a = a + 1;
    }
    proof {
        assert forall|i: int, j: int|
            0 <= i < bodies@.len() && 0 <= j < bodies@.len() && i != j
                && alive@[i] && alive@[j]
                && #[trigger] overlapping(bodies@, positions@, i, j)
                && positions@[i] != positions@[j]
                && radius_spec(bodies@[i].mass as int) + radius_spec(bodies@[j].mass as int)
                    <= hash.cell
            implies is_updated(updates@, i) || is_updated(updates@, j)
        by {
            crate::body::lemma_radius_nonneg(bodies@[i].mass as int);
            crate::body::lemma_radius_nonneg(bodies@[j].mass as int);
            lemma_overlap_close(bodies@, positions@, i, j, hash.cell as int);
            crate::hash::lemma_floor_div_bounds(positions@[i].x as int,
                hash.cell as int, 0x4000_0000_0000_0000int);
            crate::hash::lemma_floor_div_bounds(positions@[i].y as int,
                hash.cell as int, 0x4000_0000_0000_0000int);
            crate::hash::lemma_floor_div_bounds(positions@[j].x as int,
                hash.cell as int, 0x4000_0000_0000_0000int);
            crate::hash::lemma_floor_div_bounds(positions@[j].y as int,
                hash.cell as int, 0x4000_0000_0000_0000int);
            assert(keys_close(hash.cell as int, positions@, i, j));
            assert(processed@[i] || processed@[j]);
        }
    }
    updates
}

/// Pushing two updates extends the touched set by exactly their indices.
pub proof fn lemma_updated_push2(updates: Seq<ElasticUpdate>, u1: ElasticUpdate,
    u2: ElasticUpdate)
    ensures
        forall|x: int| is_updated(updates.push(u1).push(u2), x)
            == (is_updated(updates, x) || u1.idx == x || u2.idx == x),
{
    let s2 = updates.push(u1).push(u2);
    assert forall|x: int| is_updated(s2, x)
        implies (is_updated(updates, x) || u1.idx == x || u2.idx == x)
    by {
        let q = choose|q: int| 0 <= q < s2.len() && (#[trigger] s2[q]).idx == x;
        if q < updates.len() {
            assert(updates[q].idx == x);
        }
    }
    assert forall|x: int| (is_updated(updates, x) || u1.idx == x || u2.idx == x)
        implies is_updated(s2, x)
    by {
        if is_updated(updates, x) {
            let q = choose|q: int| 0 <= q < updates.len()
                && (#[trigger] updates[q]).idx == x;
            assert(s2[q].idx == x);
        } else if u1.idx == x {
            assert(s2[updates.len() as int].idx == x);
        } else {
            assert(s2[updates.len() as int + 1].idx == x);
        }
    }
}

/// The elastic apply pass: write each recorded position and velocity
/// back; everything else is untouched.
pub fn elastic_apply(
    bodies: &mut Vec<Body>,
    positions: &mut Vec<V2>,
    updates: &Vec<ElasticUpdate>,
)
    requires
        old(bodies)@.len() == old(positions)@.len(),
        forall|q: int| 0 <= q < updates@.len()
            ==> (#[trigger] updates@[q]).idx < old(bodies)@.len(),
        forall|q1: int, q2: int| 0 <= q1 < q2 < updates@.len()
            ==> (#[trigger] updates@[q1]).idx != (#[trigger] updates@[q2]).idx,
    ensures
        final(bodies)@.len() == old(bodies)@.len(),
        final(positions)@.len() == old(positions)@.len(),
        forall|x: int| 0 <= x < old(bodies)@.len() && !is_updated(updates@, x)
            ==> (#[trigger] final(bodies)@[x]) == old(bodies)@[x]
                && final(positions)@[x] == old(positions)@[x],
        forall|q: int| 0 <= q < updates@.len() ==> {
            let u = #[trigger] updates@[q];
            &&& final(bodies)@[u.idx as int].vel == u.new_vel
            &&& final(bodies)@[u.idx as int].mass == old(bodies)@[u.idx as int].mass
            &&& final(bodies)@[u.idx as int].acc == old(bodies)@[u.idx as int].acc
            &&& final(bodies)@[u.idx as int].class == old(bodies)@[u.idx as int].class
            &&& final(positions)@[u.idx as int] == u.new_pos
        },
{
    let ghost bodies0 = bodies@;
    let ghost positions0 = positions@;
    let mut q: usize = 0;
    while q < updates.len()
        invariant
            bodies@.len() == bodies0.len(),
            positions@.len() == positions0.len(),
            bodies0.len() == positions0.len(),
            q <= updates@.len(),
            forall|qq: int| 0 <= qq < updates@.len()
                ==> (#[trigger] updates@[qq]).idx < bodies0.len(),
            forall|q1: int, q2: int| 0 <= q1 < q2 < updates@.len()
                ==> (#[trigger] updates@[q1]).idx != (#[trigger] updates@[q2]).idx,
            forall|x: int| 0 <= x < bodies0.len() && !is_updated(updates@, x)
                ==> (#[trigger] bodies@[x]) == bodies0[x]
                    && positions@[x] == positions0[x],
            forall|qq: int| q <= qq < updates@.len() ==> {
                let u = #[trigger] updates@[qq];
                &&& bodies@[u.idx as int] == bodies0[u.idx as int]
                &&& positions@[u.idx as int] == positions0[u.idx as int]
            },
            forall|qq: int| 0 <= qq < q ==> {
                let u = #[trigger] updates@[qq];
                &&& bodies@[u.idx as int].vel == u.new_vel
                &&& bodies@[u.idx as int].mass == bodies0[u.idx as int].mass
                &&& bodies@[u.idx as int].acc == bodies0[u.idx as int].acc
                &&& bodies@[u.idx as int].class == bodies0[u.idx as int].class
                &&& positions@[u.idx as int] == u.new_pos
            },
        decreases updates@.len() - q,
    {
        let idx = updates[q].idx;
        proof {
            assert(updates@[q as int].idx == idx);
            assert(is_updated(updates@, idx as int));
        }
        let prev = bodies[idx];
        bodies.set(idx, Body {
            mass: prev.mass,
            vel: updates[q].new_vel,
            acc: prev.acc,
            class: prev.class,
        });
        positions.set(idx, updates[q].new_pos);
        q = q + 1;
    }
}

} // verus!
