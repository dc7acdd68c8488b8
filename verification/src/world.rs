//! The simulation world and the per-step stage pipeline.
//!
//! The world owns the bodies (with positions and live flags held beside
//! them), the tunables, and an optional player index. One step runs, in
//! order: first half-kick plus drift, quadtree rebuild, Barnes-Hut force
//! evaluation, second half-kick with the velocity ceiling, spatial-hash
//! rebuild, and collision resolution. The force stage writes only
//! accelerations; the integrator writes velocities and positions; the
//! collision stage computes instructions from an immutable snapshot and
//! applies them in a separate pass.

use vstd::prelude::*;
use crate::fx::{SCALE, tdiv, sqrt_floor, fmul, div_wide, clamp_fix, lemma_tdiv_bound,
    sat64};
use crate::vec2::V2;
use crate::body::{Body, Class, class_of, clamp_spec};
use crate::quadtree::{QuadTree, Quad, MASS_LIMIT, TREE_SPAN, wf_node, aggregates_ok,
    mass_sum, node_quad, quad_contains, bh_acc_x, bh_acc_y, descend_depth, leaves,
    coarsens, coarsens_in, lemma_coarsens_insert, lemma_coarsens_step};
use vstd::assert_multisets_equal;
use crate::settings::{SimSettings, CollisionMode};
use crate::hash::{SpatialHash, hash_wf, cell_size, cell_size_spec};
use crate::collide::{RESOLVE_POS_CAP, RESOLVE_VEL_CAP, Merge, BodyAbsorbed, ElasticUpdate, valid_merge, is_loser,
    is_winner, merged_body, overlapping, valid_elastic_pair, is_updated,
    absorb_decide, absorb_apply, elastic_decide, elastic_apply, merges_ok,
    resolve_input_ok};
use crate::body::radius_spec;

verus! {

/// Cap on a live body's position components between steps (2^39).
pub const WORLD_POS_CAP: i64 = 549755813888;

/// Cap on a live body's velocity components between steps (2^38).
pub const WORLD_VEL_CAP: i64 = 274877906944;

/// Cap on a stored acceleration component (2^32); the force stage clamps
/// to this ceiling, the velocity analogue of the speed ceiling.
pub const ACC_LIMIT: i64 = 4294967296;

/// Total mass of the live bodies among the first `k`.
pub open spec fn total_alive_mass(bodies: Seq<Body>, alive: Seq<bool>, k: int) -> int
    decreases k,
{
    if k <= 0 {
        0
    } else {
        total_alive_mass(bodies, alive, k - 1)
            + if alive[k - 1] { bodies[k - 1].mass as int } else { 0 }
    }
}


/// The bag of `(position, mass)` pairs of the live bodies among the
/// first `k` slots.
pub open spec fn live_bag(
    bodies: Seq<Body>, positions: Seq<V2>, alive: Seq<bool>, k: int,
) -> vstd::multiset::Multiset<(V2, i64)>
    decreases k,
{
    if k <= 0 {
        vstd::multiset::Multiset::empty()
    } else {
        let rest = live_bag(bodies, positions, alive, k - 1);
        if alive[k - 1] {
            rest.insert((positions[k - 1], bodies[k - 1].mass))
        } else {
            rest
        }
    }
}

/// What the host and the engine both maintain between steps.
pub struct World {
    /// Dynamic state of each body slot.
    pub bodies: Vec<Body>,
    /// Body positions (owned by the hosting world, not by `Body`).
    pub positions: Vec<V2>,
    /// Live flags; merged-away bodies stay as dead slots until the host
    /// reuses or drops them.
    pub alive: Vec<bool>,
    /// The tunables for this step.
    pub settings: SimSettings,
    /// The player's slot, if one exists.
    pub player: Option<usize>,
}

impl World {
    /// The machine-limit invariant every stage assumes: equal lengths and
    /// caps on mass, velocity, position and acceleration of live bodies.
    pub open spec fn wf(self) -> bool {
        let n = self.bodies@.len();
        &&& self.positions@.len() == n
        &&& self.alive@.len() == n
        &&& n <= 0x10000000
        &&& self.settings.wf()
        &&& total_alive_mass(self.bodies@, self.alive@, n as int) <= MASS_LIMIT
        &&& forall|i: int| 0 <= i < n && self.alive@[i] ==> {
            let b = #[trigger] self.bodies@[i];
            &&& 0 < b.mass <= MASS_LIMIT
            &&& -WORLD_VEL_CAP <= b.vel.x <= WORLD_VEL_CAP
            &&& -WORLD_VEL_CAP <= b.vel.y <= WORLD_VEL_CAP
            &&& -ACC_LIMIT <= b.acc.x <= ACC_LIMIT
            &&& -ACC_LIMIT <= b.acc.y <= ACC_LIMIT
            &&& -WORLD_POS_CAP <= self.positions@[i].x <= WORLD_POS_CAP
            &&& -WORLD_POS_CAP <= self.positions@[i].y <= WORLD_POS_CAP
        }
    }

    /// The effective timestep of this step: `dt * time_scale`, at most
    /// 0.5 in fixed point under `SimSettings::wf`.
    pub open spec fn eff_dt(self) -> int {
        tdiv(self.settings.dt as int * self.settings.time_scale as int, SCALE as int)
    }

    /// First leapfrog phase while running: half-kick then drift.
    /// `v <- v + a * dt / 2` and `p <- p + v * dt`, exactly, per live
    /// body; dead slots and accelerations are untouched; a paused world
    /// is wholly untouched.
    pub fn kick1_drift(&mut self)
        requires
            old(self).wf(),
        ensures
            final(self).bodies@.len() == old(self).bodies@.len(),
            final(self).positions@.len() == old(self).positions@.len(),
            final(self).alive == old(self).alive,
            final(self).settings == old(self).settings,
            final(self).player == old(self).player,
            !old(self).settings.running ==> *final(self) == *old(self),
            old(self).settings.running ==> forall|i: int|
                0 <= i < old(self).bodies@.len() ==> {
                    let b0 = #[trigger] old(self).bodies@[i];
                    let dte = old(self).eff_dt();
                    let vhx = b0.vel.x + tdiv(tdiv(b0.acc.x as int * dte, SCALE as int), 2);
                    let vhy = b0.vel.y + tdiv(tdiv(b0.acc.y as int * dte, SCALE as int), 2);
                    if old(self).alive@[i] {
                        &&& final(self).bodies@[i].vel.x == vhx
                        &&& final(self).bodies@[i].vel.y == vhy
                        &&& final(self).bodies@[i].mass == b0.mass
                        &&& final(self).bodies@[i].acc == b0.acc
                        &&& final(self).bodies@[i].class == b0.class
                        &&& final(self).positions@[i].x == old(self).positions@[i].x
                            + tdiv(vhx * dte, SCALE as int)
                        &&& final(self).positions@[i].y == old(self).positions@[i].y
                            + tdiv(vhy * dte, SCALE as int)
                        &&& -0x10_0000_0000 - WORLD_VEL_CAP <= final(self).bodies@[i].vel.x
                            <= WORLD_VEL_CAP + 0x10_0000_0000
                        &&& -0x10_0000_0000 - WORLD_VEL_CAP <= final(self).bodies@[i].vel.y
                            <= WORLD_VEL_CAP + 0x10_0000_0000
                        &&& -WORLD_POS_CAP - 0x40_0000_0000
                            <= final(self).positions@[i].x
                            <= WORLD_POS_CAP + 0x40_0000_0000
                        &&& -WORLD_POS_CAP - 0x40_0000_0000
                            <= final(self).positions@[i].y
                            <= WORLD_POS_CAP + 0x40_0000_0000
                    } else {
                        final(self).bodies@[i] == b0
                            && final(self).positions@[i] == old(self).positions@[i]
                    }
                },
    {
        if !self.settings.running {
            return;
        }
        proof {
            assert(0 <= self.settings.dt as int * self.settings.time_scale as int
                <= SCALE as int * 0x8000) by (nonlinear_arith)
                requires
                    0 < self.settings.dt <= 8192,
                    0 < self.settings.time_scale <= 262144,
                    SCALE == 65536;
            lemma_tdiv_bound(self.settings.dt as int * self.settings.time_scale as int,
                SCALE as int, 0x8000);
        }
        let dte: i64 = fmul(self.settings.dt, self.settings.time_scale);
        let n = self.bodies.len();
        let ghost w0 = *self;
        let mut i: usize = 0;
        while i < n
            invariant
                w0.wf(),
                n == self.bodies@.len(),
                self.bodies@.len() == w0.bodies@.len(),
                self.positions@.len() == w0.positions@.len(),
                self.alive == w0.alive,
                self.settings == w0.settings,
                self.player == w0.player,
                i <= n,
                w0.settings.running,
                0 <= dte <= 0x8000,
                dte == w0.eff_dt(),
                forall|k: int| i <= k < n
                    ==> (#[trigger] self.bodies@[k]) == w0.bodies@[k],
                forall|k: int| i <= k < n
                    ==> (#[trigger] self.positions@[k]) == w0.positions@[k],
                forall|k: int| 0 <= k < i ==> {
                    let b0 = #[trigger] w0.bodies@[k];
                    let vhx = b0.vel.x + tdiv(tdiv(b0.acc.x as int * dte, SCALE as int), 2);
                    let vhy = b0.vel.y + tdiv(tdiv(b0.acc.y as int * dte, SCALE as int), 2);
                    if w0.alive@[k] {
                        &&& self.bodies@[k].vel.x == vhx
                        &&& self.bodies@[k].vel.y == vhy
                        &&& self.bodies@[k].mass == b0.mass
                        &&& self.bodies@[k].acc == b0.acc
                        &&& self.bodies@[k].class == b0.class
                        &&& self.positions@[k].x == w0.positions@[k].x
                            + tdiv(vhx * dte, SCALE as int)
                        &&& self.positions@[k].y == w0.positions@[k].y
                            + tdiv(vhy * dte, SCALE as int)
                        &&& -0x10_0000_0000 - WORLD_VEL_CAP <= self.bodies@[k].vel.x
                            <= WORLD_VEL_CAP + 0x10_0000_0000
                        &&& -0x10_0000_0000 - WORLD_VEL_CAP <= self.bodies@[k].vel.y
                            <= WORLD_VEL_CAP + 0x10_0000_0000
                        &&& -WORLD_POS_CAP - 0x40_0000_0000 <= self.positions@[k].x
                            <= WORLD_POS_CAP + 0x40_0000_0000
                        &&& -WORLD_POS_CAP - 0x40_0000_0000 <= self.positions@[k].y
                            <= WORLD_POS_CAP + 0x40_0000_0000
                    } else {
                        self.bodies@[k] == b0 && self.positions@[k] == w0.positions@[k]
                    }
                },
            decreases n - i,
        {
            if self.alive[i] {
                let b = self.bodies[i];
                proof {
                    lemma_half_kick_bounds(b.acc.x as int, b.acc.y as int, dte as int);
                }
                let kx: i64 = div_wide(b.acc.x as i128 * dte as i128, SCALE as i128) / 2;
                let ky: i64 = div_wide(b.acc.y as i128 * dte as i128, SCALE as i128) / 2;
                let vhx: i64 = b.vel.x + kx;
                let vhy: i64 = b.vel.y + ky;
                proof {
                    lemma_drift_bounds(vhx as int, vhy as int, dte as int);
                }
                let dx: i64 = div_wide(vhx as i128 * dte as i128, SCALE as i128);
                let dy: i64 = div_wide(vhy as i128 * dte as i128, SCALE as i128);
                let p = self.positions[i];
                self.bodies.set(i, Body {
                    mass: b.mass,
                    vel: V2 { x: vhx, y: vhy },
                    acc: b.acc,
                    class: b.class,
                });
                self.positions.set(i, V2 { x: p.x + dx, y: p.y + dy });
            }
            i = i + 1;
        }
    }
}

/// Range facts for the half-kick increment: `|a * dt / SCALE / 2|` stays
/// below 2^38 + 2^34ish under the caps.
pub proof fn lemma_half_kick_bounds(ax: int, ay: int, dte: int)
    requires
        -ACC_LIMIT <= ax <= ACC_LIMIT,
        -ACC_LIMIT <= ay <= ACC_LIMIT,
        0 <= dte <= 0x8000,
    ensures
        -(SCALE * 0x20_0000_0000) <= ax * dte <= SCALE * 0x20_0000_0000,
        -(SCALE * 0x20_0000_0000) <= ay * dte <= SCALE * 0x20_0000_0000,
        -0x20_0000_0000 <= tdiv(ax * dte, SCALE as int) <= 0x20_0000_0000,
        -0x20_0000_0000 <= tdiv(ay * dte, SCALE as int) <= 0x20_0000_0000,
        -0x10_0000_0000 <= tdiv(tdiv(ax * dte, SCALE as int), 2) <= 0x10_0000_0000,
        -0x10_0000_0000 <= tdiv(tdiv(ay * dte, SCALE as int), 2) <= 0x10_0000_0000,
        tdiv(tdiv(ax * dte, SCALE as int), 2)
            == tdiv(ax * dte, SCALE as int) / 2
            || tdiv(tdiv(ax * dte, SCALE as int), 2)
            == -((-tdiv(ax * dte, SCALE as int)) / 2),
{
    assert(-(SCALE * 0x20_0000_0000) <= ax * dte <= SCALE * 0x20_0000_0000
        && -(SCALE * 0x20_0000_0000) <= ay * dte <= SCALE * 0x20_0000_0000)
        by (nonlinear_arith)
        requires
            -ACC_LIMIT <= ax <= ACC_LIMIT,
            -ACC_LIMIT <= ay <= ACC_LIMIT,
            0 <= dte <= 0x8000,
            ACC_LIMIT == 0x1_0000_0000,
            SCALE == 65536;
    lemma_tdiv_bound(ax * dte, SCALE as int, 0x20_0000_0000);
    lemma_tdiv_bound(ay * dte, SCALE as int, 0x20_0000_0000);
    lemma_tdiv_bound(tdiv(ax * dte, SCALE as int), 2, 0x10_0000_0000);
    lemma_tdiv_bound(tdiv(ay * dte, SCALE as int), 2, 0x10_0000_0000);
}

/// Range facts for the drift increment.
pub proof fn lemma_drift_bounds(vhx: int, vhy: int, dte: int)
    requires
        -WORLD_VEL_CAP - 0x10_0000_0000 <= vhx <= WORLD_VEL_CAP + 0x10_0000_0000,
        -WORLD_VEL_CAP - 0x10_0000_0000 <= vhy <= WORLD_VEL_CAP + 0x10_0000_0000,
        0 <= dte <= 0x8000,
    ensures
        -(SCALE * 0x40_0000_0000) <= vhx * dte <= SCALE * 0x40_0000_0000,
        -(SCALE * 0x40_0000_0000) <= vhy * dte <= SCALE * 0x40_0000_0000,
        -0x40_0000_0000 <= tdiv(vhx * dte, SCALE as int) <= 0x40_0000_0000,
        -0x40_0000_0000 <= tdiv(vhy * dte, SCALE as int) <= 0x40_0000_0000,
{
    assert(-(SCALE * 0x40_0000_0000) <= vhx * dte <= SCALE * 0x40_0000_0000
        && -(SCALE * 0x40_0000_0000) <= vhy * dte <= SCALE * 0x40_0000_0000)
        by (nonlinear_arith)
        requires
            -0x50_0000_0000 <= vhx <= 0x50_0000_0000,
            -0x50_0000_0000 <= vhy <= 0x50_0000_0000,
            0 <= dte <= 0x8000,
            SCALE == 65536;
    lemma_tdiv_bound(vhx * dte, SCALE as int, 0x40_0000_0000);
    lemma_tdiv_bound(vhy * dte, SCALE as int, 0x40_0000_0000);
}


/// The adaptive opening angle for a body with local density `d` in
/// `[0, SCALE]`: denser neighborhoods get the smaller (more accurate)
/// theta; without adaptivity the fixed theta is used.
pub open spec fn theta_for(s: SimSettings, d: int) -> int {
    if s.adaptive_theta {
        s.theta_max + tdiv((s.theta_min - s.theta_max) * d, SCALE as int)
    } else {
        s.theta as int
    }
}

/// The adaptive softening: denser neighborhoods get larger softening,
/// damping close-encounter singularities where clustering concentrates.
pub open spec fn soft_for(s: SimSettings, d: int) -> int {
    if s.adaptive_softening {
        s.softening_min + tdiv((s.softening_max - s.softening_min) * d, SCALE as int)
    } else {
        s.softening as int
    }
}

/// The density signal the force stage uses for body `i`.
pub open spec fn density_for(t: QuadTree, p: V2) -> int {
    tdiv(descend_depth(*t.root, p.x as int, p.y as int, 0) * SCALE, 12)
}

/// The speed-ceiling clamp, x component: if the velocity's length exceeds
/// `max`, rescale by `max / length` (computed on the integer-sqrt grid).
pub open spec fn clampv_x(vx: int, vy: int, max: int) -> int {
    let sp = sqrt_floor(vx * vx + vy * vy);
    if sp <= max {
        vx
    } else {
        tdiv(vx * max, sp)
    }
}

/// The speed-ceiling clamp, y component.
pub open spec fn clampv_y(vx: int, vy: int, max: int) -> int {
    let sp = sqrt_floor(vx * vx + vy * vy);
    if sp <= max {
        vy
    } else {
        tdiv(vy * max, sp)
    }
}

/// A prefix of the live-mass sum never exceeds the whole, and any single
/// live body's mass fits over its prefix.
pub proof fn lemma_total_mass_prefix(bodies: Seq<Body>, alive: Seq<bool>, i: int, k: int)
    requires
        0 <= i < k <= bodies.len(),
        alive.len() == bodies.len(),
        forall|j: int| 0 <= j < bodies.len() && alive[j]
            ==> (#[trigger] bodies[j]).mass > 0,
    ensures
        alive[i] ==> total_alive_mass(bodies, alive, i) + bodies[i].mass
            <= total_alive_mass(bodies, alive, k),
        total_alive_mass(bodies, alive, i) <= total_alive_mass(bodies, alive, k),
        total_alive_mass(bodies, alive, i) >= 0,
    decreases k,
{
    if k == i + 1 {
        lemma_total_mass_nonneg(bodies, alive, i);
    } else {
        lemma_total_mass_prefix(bodies, alive, i, k - 1);
    }
}

/// Live-mass sums are nonnegative.
pub proof fn lemma_total_mass_nonneg(bodies: Seq<Body>, alive: Seq<bool>, k: int)
    requires
        k <= bodies.len(),
        alive.len() == bodies.len(),
        forall|j: int| 0 <= j < bodies.len() && alive[j]
            ==> (#[trigger] bodies[j]).mass > 0,
    ensures
        total_alive_mass(bodies, alive, k) >= 0,
    decreases k,
{
    if k > 0 {
        lemma_total_mass_nonneg(bodies, alive, k - 1);
    }
}

impl World {
    /// An empty world with the given tunables.
    pub fn empty(settings: SimSettings) -> (r: World)
        requires
            settings.wf(),
        ensures
            r.wf(),
            r.bodies@.len() == 0,
            r.settings == settings,
            r.player.is_none(),
    {
        World {
            bodies: Vec::new(),
            positions: Vec::new(),
            alive: Vec::new(),
            settings,
            player: None,
        }
    }

    /// Append one live body; the host keeps the total mass within
    /// `MASS_LIMIT`.
    pub fn add_body(&mut self, pos: V2, vel: V2, mass: i64) -> (idx: usize)
        requires
            old(self).wf(),
            0 < mass <= MASS_LIMIT,
            total_alive_mass(old(self).bodies@, old(self).alive@,
                old(self).bodies@.len() as int) + mass <= MASS_LIMIT,
            old(self).bodies@.len() < 0x10000000,
            -WORLD_VEL_CAP <= vel.x <= WORLD_VEL_CAP,
            -WORLD_VEL_CAP <= vel.y <= WORLD_VEL_CAP,
            -WORLD_POS_CAP <= pos.x <= WORLD_POS_CAP,
            -WORLD_POS_CAP <= pos.y <= WORLD_POS_CAP,
        ensures
            final(self).wf(),
            final(self).bodies@.len() == old(self).bodies@.len() + 1,
            idx == old(self).bodies@.len(),
            final(self).bodies@[idx as int].mass == mass,
            final(self).bodies@[idx as int].vel == vel,
            final(self).bodies@[idx as int].acc == (V2 { x: 0, y: 0 }),
            final(self).bodies@[idx as int].class == class_of(mass as int),
            final(self).positions@[idx as int] == pos,
            final(self).alive@[idx as int],
            final(self).settings == old(self).settings,
            final(self).player == old(self).player,
            forall|i: int| 0 <= i < old(self).bodies@.len()
                ==> (#[trigger] final(self).bodies@[i]) == old(self).bodies@[i]
                    && final(self).positions@[i] == old(self).positions@[i]
                    && final(self).alive@[i] == old(self).alive@[i],
    {
        let idx = self.bodies.len();
        let class = Class::from_mass(mass);
        self.bodies.push(Body { mass, vel, acc: V2 { x: 0, y: 0 }, class });
        self.positions.push(pos);
        self.alive.push(true);
        proof {
            lemma_total_mass_push(old(self).bodies@, old(self).alive@,
                self.bodies@, self.alive@, mass as int);
        }
        idx
    }

    /// Rebuild the quadtree from the current snapshot: bounds recomputed
    /// from the live extents (so no live body is dropped), every live
    /// body inserted, aggregates built. The tree's total mass equals the
    /// exact sum of the live masses: mass conservation through the build.
    pub fn rebuild_quadtree(&self) -> (t: QuadTree)
        requires
            self.positions@.len() == self.bodies@.len(),
            self.alive@.len() == self.bodies@.len(),
            total_alive_mass(self.bodies@, self.alive@, self.bodies@.len() as int)
                <= MASS_LIMIT,
            forall|i: int| 0 <= i < self.bodies@.len() && self.alive@[i]
                ==> 0 < (#[trigger] self.bodies@[i]).mass <= MASS_LIMIT,
            forall|i: int| 0 <= i < self.bodies@.len() && self.alive@[i]
                ==> -WORLD_POS_CAP - 0x40_0000_0000
                    <= (#[trigger] self.positions@[i]).x
                    <= WORLD_POS_CAP + 0x40_0000_0000
                    && -WORLD_POS_CAP - 0x40_0000_0000 <= self.positions@[i].y
                    <= WORLD_POS_CAP + 0x40_0000_0000,
        ensures
            wf_node(*t.root, 0),
            aggregates_ok(*t.root),
            mass_sum(*t.root) == total_alive_mass(self.bodies@, self.alive@,
                self.bodies@.len() as int),
            node_quad(*t.root).center == (V2 { x: 0, y: 0 }),
            node_quad(*t.root).half_size >= 131072000,
            coarsens(live_bag(self.bodies@, self.positions@, self.alive@,
                self.bodies@.len() as int), leaves(*t.root)),
            forall|i: int| 0 <= i < self.bodies@.len() && self.alive@[i]
                ==> quad_contains(node_quad(*t.root),
                    (#[trigger] self.positions@[i]).x as int,
                    self.positions@[i].y as int),
            forall|i: int| 0 <= i < self.bodies@.len() && self.alive@[i] ==> {
                let h = node_quad(*t.root).half_size as int;
                &&& 6 * (#[trigger] self.positions@[i]).x <= 5 * h + 4
                &&& -(6 * self.positions@[i].x) <= 5 * h + 4
                &&& 6 * self.positions@[i].y <= 5 * h + 4
                &&& -(6 * self.positions@[i].y) <= 5 * h + 4
            },
    {
        let n = self.bodies.len();
        let mut ext: i64 = 0;
        let mut i: usize = 0;
        while i < n
            invariant
                n == self.bodies@.len(),
                self.positions@.len() == n,
                self.alive@.len() == n,
                i <= n,
                0 <= ext <= WORLD_POS_CAP + 0x40_0000_0000,
                forall|k: int| 0 <= k < n && self.alive@[k]
                    ==> -WORLD_POS_CAP - 0x40_0000_0000
                        <= (#[trigger] self.positions@[k]).x
                        <= WORLD_POS_CAP + 0x40_0000_0000
                        && -WORLD_POS_CAP - 0x40_0000_0000 <= self.positions@[k].y
                        <= WORLD_POS_CAP + 0x40_0000_0000,
                forall|k: int| 0 <= k < i && self.alive@[k]
                    ==> -ext <= (#[trigger] self.positions@[k]).x <= ext
                        && -ext <= self.positions@[k].y <= ext,
            decreases n - i,
        {
            if self.alive[i] {
                let p = self.positions[i];
                if p.x > ext {
                    ext = p.x;
                }
                if 0 - p.x > ext {
                    ext = 0 - p.x;
                }
                if p.y > ext {
                    ext = p.y;
                }
                if 0 - p.y > ext {
                    ext = 0 - p.y;
                }
            }
            i = i + 1;
        }
        // side half-length: 1.2 * extent, at least 2000 units, aligned so
        // subdivision is exact to the depth cap
        proof {
            lemma_tdiv_bound(ext as int * 6, 5, 0xE8_0000_0000);
            vstd::arithmetic::div_mod::lemma_hoist_over_denominator(
                ext as int, ext as int, 5);
            lemma_tdiv_bound(ext as int, 5, 0xE8_0000_0000);
        }
        let mut half: i64 = crate::fx::div_fix(ext * 6, 5);
        if half < 131072000 {
            half = 131072000;
        }
        proof {
            crate::fx::lemma_tdiv_bound(half as int + 4095, 4096, 0x4_0000_0000);
        }
        let q: i64 = (half + 4095) / 4096;
        let half_aligned: i64 = q * 4096;
        proof {
            vstd::arithmetic::div_mod::lemma_fundamental_div_mod(half as int + 4095, 4096);
            vstd::arithmetic::div_mod::lemma_mod_bound(half as int + 4095, 4096);
            vstd::arithmetic::div_mod::lemma_mod_multiples_basic(q as int, 4096);
            assert(pw2_is_4096()) by {
                reveal_with_fuel(crate::quadtree::pw2, 13);
            }
            // the side margin: 5 * half + 4 >= 6 * extent
            crate::fx::lemma_tdiv_remainder(ext as int * 6, 5);
        }
        let bounds = Quad { center: V2 { x: 0, y: 0 }, half_size: half_aligned };
        let mut qt = QuadTree::new(bounds);
        proof {
            assert(coarsens_in(live_bag(self.bodies@, self.positions@, self.alive@, 0),
                leaves(*qt.root), 0));
        }
        let mut i2: usize = 0;
        while i2 < n
            invariant
                n == self.bodies@.len(),
                self.positions@.len() == n,
                self.alive@.len() == n,
                i2 <= n,
                total_alive_mass(self.bodies@, self.alive@, n as int) <= MASS_LIMIT,
                forall|k: int| 0 <= k < n && self.alive@[k]
                    ==> 0 < (#[trigger] self.bodies@[k]).mass <= MASS_LIMIT,
                forall|k: int| 0 <= k < n && self.alive@[k]
                    ==> -(bounds.half_size as int)
                        <= (#[trigger] self.positions@[k]).x <= bounds.half_size
                        && -(bounds.half_size as int) <= self.positions@[k].y
                        <= bounds.half_size,
                wf_node(*qt.root, 0),
                node_quad(*qt.root) == bounds,
                bounds.center == (V2 { x: 0, y: 0 }),
                mass_sum(*qt.root) == total_alive_mass(self.bodies@, self.alive@,
                    i2 as int),
                coarsens(live_bag(self.bodies@, self.positions@, self.alive@,
                    i2 as int), leaves(*qt.root)),
            decreases n - i2,
        {
            if self.alive[i2] {
                proof {
                    lemma_total_mass_prefix(self.bodies@, self.alive@, i2 as int,
                        n as int);
                }
                let ghost lpre = leaves(*qt.root);
                let ghost bag = live_bag(self.bodies@, self.positions@, self.alive@,
                    i2 as int);
                let dropped = qt.insert(self.positions[i2], self.bodies[i2].mass);
                proof {
                    broadcast use vstd::multiset::group_multiset_axioms;

                    assert(quad_contains(bounds, self.positions@[i2 as int].x as int,
                        self.positions@[i2 as int].y as int));
                    let e = (self.positions@[i2 as int], self.bodies@[i2 as int].mass);
                    let mval = self.bodies@[i2 as int].mass as int;
                    let k = choose|k: nat| #[trigger] coarsens_in(bag, lpre, k);
                    lemma_coarsens_insert(bag, lpre, k, e);
                    if leaves(*qt.root) == lpre.insert(e) {
                        assert(coarsens_in(bag.insert(e), leaves(*qt.root), k));
                    } else {
                        // a depth-cap merge folded the new body into a
                        // resident leaf
                        let (q, mq): (V2, i64) = choose|q: V2, mq: i64|
                            #![trigger lpre.count((q, mq))]
                            lpre.count((q, mq)) > 0
                                && leaves(*qt.root) == lpre.remove((q, mq)).insert(
                                    (q, (mq + mval) as i64));
                        assert(lpre.insert(e).count((q, mq)) > 0);
                        assert(lpre.insert(e).remove((q, mq)).count(e) > 0);
                        lemma_coarsens_step(bag.insert(e), lpre.insert(e), k, q, mq,
                            e.0, e.1);
                        assert_multisets_equal!(
                            lpre.insert(e).remove((q, mq)).remove(e).insert(
                                (q, (mq + e.1) as i64)),
                            leaves(*qt.root));
                        assert(coarsens_in(bag.insert(e), leaves(*qt.root), k + 1));
                    }
                    assert(live_bag(self.bodies@, self.positions@, self.alive@,
                        i2 as int + 1) == bag.insert(e));
                }
            }
            i2 = i2 + 1;
        }
        proof {
            lemma_total_mass_nonneg(self.bodies@, self.alive@, n as int);
            assert forall|i: int| 0 <= i < n && self.alive@[i]
                implies 6 * (#[trigger] self.positions@[i]).x
                    <= 5 * (bounds.half_size as int) + 4
                    && -(6 * self.positions@[i].x) <= 5 * (bounds.half_size as int) + 4
                    && 6 * self.positions@[i].y <= 5 * (bounds.half_size as int) + 4
                    && -(6 * self.positions@[i].y) <= 5 * (bounds.half_size as int) + 4
            by {
                assert(-ext <= self.positions@[i].x <= ext
                    && -ext <= self.positions@[i].y <= ext);
            }
        }
        qt.build_mass_centers();
        qt
    }
}

/// `pw2(12) == 4096` (the depth-cap alignment unit).
pub open spec fn pw2_is_4096() -> bool {
    crate::quadtree::pw2(12) == 4096
}

/// Pushing one live body adds its mass to the live total.
pub proof fn lemma_total_mass_push(
    bodies0: Seq<Body>, alive0: Seq<bool>, bodies1: Seq<Body>, alive1: Seq<bool>,
    m: int,
)
    requires
        bodies0.len() == alive0.len(),
        bodies1.len() == bodies0.len() + 1,
        alive1.len() == alive0.len() + 1,
        forall|i: int| 0 <= i < bodies0.len()
            ==> (#[trigger] bodies1[i]) == bodies0[i],
        forall|i: int| 0 <= i < alive0.len() ==> (#[trigger] alive1[i]) == alive0[i],
        bodies1[bodies0.len() as int].mass == m,
        alive1[alive0.len() as int],
    ensures
        total_alive_mass(bodies1, alive1, bodies1.len() as int)
            == total_alive_mass(bodies0, alive0, bodies0.len() as int) + m,
{
    lemma_total_mass_agree(bodies0, alive0, bodies1, alive1, bodies0.len() as int);
}

/// Live-mass sums agree on a common prefix of agreeing snapshots.
pub proof fn lemma_total_mass_agree(
    bodies0: Seq<Body>, alive0: Seq<bool>, bodies1: Seq<Body>, alive1: Seq<bool>,
    k: int,
)
    requires
        k <= bodies0.len(),
        k <= alive0.len(),
        k <= bodies1.len(),
        k <= alive1.len(),
        forall|i: int| 0 <= i < k ==> (#[trigger] bodies1[i]).mass == bodies0[i].mass,
        forall|i: int| 0 <= i < k ==> (#[trigger] alive1[i]) == alive0[i],
    ensures
        total_alive_mass(bodies1, alive1, k) == total_alive_mass(bodies0, alive0, k),
    decreases k,
{
    if k > 0 {
        lemma_total_mass_agree(bodies0, alive0, bodies1, alive1, k - 1);
    }
}


impl World {
    /// The force stage: for each live body, compute the local density
    /// signal, pick the (possibly adaptive) opening angle and softening,
    /// and store the Barnes-Hut acceleration clamped to `ACC_LIMIT`.
    /// Reads positions and masses, writes only accelerations; a paused
    /// world is untouched.
    pub fn apply_bh_forces(&mut self, tree: &QuadTree)
        requires
            old(self).positions@.len() == old(self).bodies@.len(),
            old(self).alive@.len() == old(self).bodies@.len(),
            old(self).settings.wf(),
            wf_node(*tree.root, 0),
            aggregates_ok(*tree.root),
            mass_sum(*tree.root) <= MASS_LIMIT,
            forall|i: int| 0 <= i < old(self).bodies@.len() && old(self).alive@[i]
                ==> -TREE_SPAN <= (#[trigger] old(self).positions@[i]).x <= TREE_SPAN
                    && -TREE_SPAN <= old(self).positions@[i].y <= TREE_SPAN,
        ensures
            final(self).bodies@.len() == old(self).bodies@.len(),
            final(self).positions == old(self).positions,
            final(self).alive == old(self).alive,
            final(self).settings == old(self).settings,
            final(self).player == old(self).player,
            !old(self).settings.running ==> *final(self) == *old(self),
            old(self).settings.running ==> forall|i: int|
                0 <= i < old(self).bodies@.len() ==> {
                    let b0 = #[trigger] old(self).bodies@[i];
                    let p = old(self).positions@[i];
                    let dnj = density_for(*tree, p);
                    let th = theta_for(old(self).settings, dnj);
                    let so = soft_for(old(self).settings, dnj);
                    if old(self).alive@[i] {
                        &&& final(self).bodies@[i].acc.x == clamp_spec(sat64(bh_acc_x(
                            *tree.root, p.x as int, p.y as int,
                            old(self).settings.g as int, th, so * so)),
                            -ACC_LIMIT as int, ACC_LIMIT as int)
                        &&& final(self).bodies@[i].acc.y == clamp_spec(sat64(bh_acc_y(
                            *tree.root, p.x as int, p.y as int,
                            old(self).settings.g as int, th, so * so)),
                            -ACC_LIMIT as int, ACC_LIMIT as int)
                        &&& final(self).bodies@[i].mass == b0.mass
                        &&& final(self).bodies@[i].vel == b0.vel
                        &&& final(self).bodies@[i].class == b0.class
                    } else {
                        final(self).bodies@[i] == b0
                    }
                },
    {
        if !self.settings.running {
            return;
        }
        let n = self.bodies.len();
        let ghost w0 = *self;
        let mut i: usize = 0;
        while i < n
            invariant
                w0.positions@.len() == n,
                w0.alive@.len() == n,
                w0.settings.wf(),
                w0.settings.running,
                n == self.bodies@.len(),
                self.bodies@.len() == w0.bodies@.len(),
                self.positions == w0.positions,
                self.alive == w0.alive,
                self.settings == w0.settings,
                self.player == w0.player,
                i <= n,
                wf_node(*tree.root, 0),
                aggregates_ok(*tree.root),
                mass_sum(*tree.root) <= MASS_LIMIT,
                forall|k: int| 0 <= k < n && w0.alive@[k]
                    ==> -TREE_SPAN <= (#[trigger] w0.positions@[k]).x <= TREE_SPAN
                        && -TREE_SPAN <= w0.positions@[k].y <= TREE_SPAN,
                forall|k: int| i <= k < n
                    ==> (#[trigger] self.bodies@[k]) == w0.bodies@[k],
                forall|k: int| 0 <= k < i ==> {
                    let b0 = #[trigger] w0.bodies@[k];
                    let p = w0.positions@[k];
                    let dnj = density_for(*tree, p);
                    let th = theta_for(w0.settings, dnj);
                    let so = soft_for(w0.settings, dnj);
                    if w0.alive@[k] {
                        &&& self.bodies@[k].acc.x == clamp_spec(sat64(bh_acc_x(
                            *tree.root, p.x as int, p.y as int, w0.settings.g as int,
                            th, so * so)), -ACC_LIMIT as int, ACC_LIMIT as int)
                        &&& self.bodies@[k].acc.y == clamp_spec(sat64(bh_acc_y(
                            *tree.root, p.x as int, p.y as int, w0.settings.g as int,
                            th, so * so)), -ACC_LIMIT as int, ACC_LIMIT as int)
                        &&& self.bodies@[k].mass == b0.mass
                        &&& self.bodies@[k].vel == b0.vel
                        &&& self.bodies@[k].class == b0.class
                    } else {
                        self.bodies@[k] == b0
                    }
                },
            decreases n - i,
        {
            if self.alive[i] {
                let p = self.positions[i];
                let dnj: i64 = tree.get_density_factor(p);
                let th: i64 = if self.settings.adaptive_theta {
                    proof {
                        lemma_lerp_between(self.settings.theta_max as int,
                            self.settings.theta_min as int, dnj as int);
                    }
                    crate::fx::lerp_fix(self.settings.theta_max, self.settings.theta_min,
                        dnj)
                } else {
                    self.settings.theta
                };
                let so: i64 = if self.settings.adaptive_softening {
                    proof {
                        lemma_lerp_between(self.settings.softening_min as int,
                            self.settings.softening_max as int, dnj as int);
                    }
                    crate::fx::lerp_fix(self.settings.softening_min,
                        self.settings.softening_max, dnj)
                } else {
                    self.settings.softening
                };
                proof {
                    assert(0 <= so as int * so as int
                        <= 0x10000000_00000000int) by (nonlinear_arith)
                        requires 0 <= so <= 0x10000000;
                }
                let soft2: i64 = so * so;
                let a = tree.approx_acc(p, self.settings.g, th, soft2);
                let ax = clamp_fix(a.x, 0 - ACC_LIMIT, ACC_LIMIT);
                let ay = clamp_fix(a.y, 0 - ACC_LIMIT, ACC_LIMIT);
                let b = self.bodies[i];
                self.bodies.set(i, Body {
                    mass: b.mass,
                    vel: b.vel,
                    acc: V2 { x: ax, y: ay },
                    class: b.class,
                });
            }
            i = i + 1;
        }
    }

    /// Second leapfrog phase while running: `v <- v + a * dt / 2`, then
    /// clamp the speed to the configured ceiling. Afterwards every live
    /// velocity component is within `max_vel` in magnitude.
    pub fn kick2(&mut self)
        requires
            old(self).positions@.len() == old(self).bodies@.len(),
            old(self).alive@.len() == old(self).bodies@.len(),
            old(self).settings.wf(),
            forall|i: int| 0 <= i < old(self).bodies@.len() && old(self).alive@[i] ==> {
                let b = #[trigger] old(self).bodies@[i];
                &&& -0x50_0000_0000 <= b.vel.x <= 0x50_0000_0000
                &&& -0x50_0000_0000 <= b.vel.y <= 0x50_0000_0000
                &&& -ACC_LIMIT <= b.acc.x <= ACC_LIMIT
                &&& -ACC_LIMIT <= b.acc.y <= ACC_LIMIT
            },
        ensures
            final(self).bodies@.len() == old(self).bodies@.len(),
            final(self).positions == old(self).positions,
            final(self).alive == old(self).alive,
            final(self).settings == old(self).settings,
            final(self).player == old(self).player,
            !old(self).settings.running ==> *final(self) == *old(self),
            old(self).settings.running ==> forall|i: int|
                0 <= i < old(self).bodies@.len() ==> {
                    let b0 = #[trigger] old(self).bodies@[i];
                    let dte = old(self).eff_dt();
                    let vfx = b0.vel.x + tdiv(tdiv(b0.acc.x as int * dte, SCALE as int), 2);
                    let vfy = b0.vel.y + tdiv(tdiv(b0.acc.y as int * dte, SCALE as int), 2);
                    if old(self).alive@[i] {
                        &&& final(self).bodies@[i].vel.x
                            == clampv_x(vfx, vfy, old(self).settings.max_vel as int)
                        &&& final(self).bodies@[i].vel.y
                            == clampv_y(vfx, vfy, old(self).settings.max_vel as int)
                        &&& -(old(self).settings.max_vel as int)
                            <= final(self).bodies@[i].vel.x
                            <= old(self).settings.max_vel
                        &&& -(old(self).settings.max_vel as int)
                            <= final(self).bodies@[i].vel.y
                            <= old(self).settings.max_vel
                        &&& final(self).bodies@[i].mass == b0.mass
                        &&& final(self).bodies@[i].acc == b0.acc
                        &&& final(self).bodies@[i].class == b0.class
                    } else {
                        final(self).bodies@[i] == b0
                    }
                },
    {
        if !self.settings.running {
            return;
        }
        proof {
            assert(0 <= self.settings.dt as int * self.settings.time_scale as int
                <= SCALE as int * 0x8000) by (nonlinear_arith)
                requires
                    0 < self.settings.dt <= 8192,
                    0 < self.settings.time_scale <= 262144,
                    SCALE == 65536;
            lemma_tdiv_bound(self.settings.dt as int * self.settings.time_scale as int,
                SCALE as int, 0x8000);
        }
        let dte: i64 = fmul(self.settings.dt, self.settings.time_scale);
        let max_vel = self.settings.max_vel;
        let n = self.bodies.len();
        let ghost w0 = *self;
        let mut i: usize = 0;
        while i < n
            invariant
                n == self.bodies@.len(),
                self.bodies@.len() == w0.bodies@.len(),
                w0.positions@.len() == n,
                w0.alive@.len() == n,
                self.positions == w0.positions,
                self.alive == w0.alive,
                self.settings == w0.settings,
                self.player == w0.player,
                w0.settings.wf(),
                w0.settings.running,
                i <= n,
                0 <= dte <= 0x8000,
                dte == w0.eff_dt(),
                max_vel == w0.settings.max_vel,
                forall|k: int| 0 <= k < n && w0.alive@[k] ==> {
                    let b = #[trigger] w0.bodies@[k];
                    &&& -0x50_0000_0000 <= b.vel.x <= 0x50_0000_0000
                    &&& -0x50_0000_0000 <= b.vel.y <= 0x50_0000_0000
                    &&& -ACC_LIMIT <= b.acc.x <= ACC_LIMIT
                    &&& -ACC_LIMIT <= b.acc.y <= ACC_LIMIT
                },
                forall|k: int| i <= k < n
                    ==> (#[trigger] self.bodies@[k]) == w0.bodies@[k],
                forall|k: int| 0 <= k < i ==> {
                    let b0 = #[trigger] w0.bodies@[k];
                    let vfx = b0.vel.x + tdiv(tdiv(b0.acc.x as int * dte, SCALE as int), 2);
                    let vfy = b0.vel.y + tdiv(tdiv(b0.acc.y as int * dte, SCALE as int), 2);
                    if w0.alive@[k] {
                        &&& self.bodies@[k].vel.x
                            == clampv_x(vfx, vfy, w0.settings.max_vel as int)
                        &&& self.bodies@[k].vel.y
                            == clampv_y(vfx, vfy, w0.settings.max_vel as int)
                        &&& -(w0.settings.max_vel as int) <= self.bodies@[k].vel.x
                            <= w0.settings.max_vel
                        &&& -(w0.settings.max_vel as int) <= self.bodies@[k].vel.y
                            <= w0.settings.max_vel
                        &&& self.bodies@[k].mass == b0.mass
                        &&& self.bodies@[k].acc == b0.acc
                        &&& self.bodies@[k].class == b0.class
                    } else {
                        self.bodies@[k] == b0
                    }
                },
            decreases n - i,
        {
            if self.alive[i] {
                let b = self.bodies[i];
                proof {
                    lemma_half_kick_bounds(b.acc.x as int, b.acc.y as int, dte as int);
                }
                let kx: i64 = div_wide(b.acc.x as i128 * dte as i128, SCALE as i128) / 2;
                let ky: i64 = div_wide(b.acc.y as i128 * dte as i128, SCALE as i128) / 2;
                let vfx: i64 = b.vel.x + kx;
                let vfy: i64 = b.vel.y + ky;
                let (cx, cy) = clamp_speed(vfx, vfy, max_vel);
                self.bodies.set(i, Body {
                    mass: b.mass,
                    vel: V2 { x: cx, y: cy },
                    acc: b.acc,
                    class: b.class,
                });
            }
            i = i + 1;
        }
    }
}

/// An adaptive parameter interpolated with `lerp_fix` stays between its
/// two endpoints.
pub proof fn lemma_lerp_between(a: int, b: int, t: int)
    requires
        0 <= t <= SCALE,
        -0x4000_0000_0000 <= a <= 0x4000_0000_0000,
        -0x4000_0000_0000 <= b <= 0x4000_0000_0000,
    ensures
        a <= b ==> a <= a + tdiv((b - a) * t, SCALE as int) <= b,
        b <= a ==> b <= a + tdiv((b - a) * t, SCALE as int) <= a,
{
    if a <= b {
        assert(0 <= (b - a) * t <= SCALE * (b - a)) by (nonlinear_arith)
            requires 0 <= t <= SCALE, b - a >= 0;
        lemma_tdiv_bound((b - a) * t, SCALE as int, b - a);
        crate::fx::lemma_tdiv_remainder((b - a) * t, SCALE as int);
        vstd::arithmetic::div_mod::lemma_div_pos_is_pos((b - a) * t, SCALE as int);
    } else {
        assert(SCALE * (a - b) >= (a - b) * t >= 0 && -((a - b) * t) == (b - a) * t)
            by (nonlinear_arith)
            requires 0 <= t <= SCALE, a - b >= 0;
        lemma_tdiv_bound((b - a) * t, SCALE as int, a - b);
        vstd::arithmetic::div_mod::lemma_div_pos_is_pos((a - b) * t, SCALE as int);
    }
}

/// Clamp a velocity's length to `max` by rescaling both components
/// (executable twin of `clampv_x` / `clampv_y`).
fn clamp_speed(vx: i64, vy: i64, max: i64) -> (r: (i64, i64))
    requires
        -0x60_0000_0000 <= vx <= 0x60_0000_0000,
        -0x60_0000_0000 <= vy <= 0x60_0000_0000,
        0 < max,
    ensures
        r.0 == clampv_x(vx as int, vy as int, max as int),
        r.1 == clampv_y(vx as int, vy as int, max as int),
        -max <= r.0 <= max,
        -max <= r.1 <= max,
{
    proof {
        assert(0 <= vx as int * vx as int <= 0x2400_00000000_00000000int
            && 0 <= vy as int * vy as int <= 0x2400_00000000_00000000int)
            by (nonlinear_arith)
            requires -0x60_0000_0000 <= vx <= 0x60_0000_0000,
                -0x60_0000_0000 <= vy <= 0x60_0000_0000;
    }
    let s2: i128 = vx as i128 * vx as i128 + vy as i128 * vy as i128;
    let sp: u128 = crate::fx::isqrt(s2 as u128);
    proof {
        crate::body::lemma_root_small(sp as int, s2 as int, 0x100_0000_0000);
        assert((if vx >= 0 { vx as int } else { -(vx as int) })
            * (if vx >= 0 { vx as int } else { -(vx as int) }) <= s2 as int)
            by (nonlinear_arith)
            requires vx as int * vx as int + vy as int * vy as int == s2,
                vy as int * vy as int >= 0;
        assert((if vy >= 0 { vy as int } else { -(vy as int) })
            * (if vy >= 0 { vy as int } else { -(vy as int) }) <= s2 as int)
            by (nonlinear_arith)
            requires vx as int * vx as int + vy as int * vy as int == s2,
                vx as int * vx as int >= 0;
        crate::fx::lemma_sqrt_ge(s2 as int,
            if vx >= 0 { vx as int } else { -(vx as int) });
        crate::fx::lemma_sqrt_ge(s2 as int,
            if vy >= 0 { vy as int } else { -(vy as int) });
    }
    let spl: i64 = sp as i64;
    if spl <= max {
        (vx, vy)
    } else {
        proof {
            assert(-(spl as int * max as int) <= vx as int * max as int
                <= spl as int * max as int
                && -(spl as int * max as int) <= vy as int * max as int
                <= spl as int * max as int
                && vx as int * max as int <= 0x100_00000000_00000000_00000000int
                && vx as int * max as int >= -0x100_00000000_00000000_00000000int
                && vy as int * max as int <= 0x100_00000000_00000000_00000000int
                && vy as int * max as int >= -0x100_00000000_00000000_00000000int)
                by (nonlinear_arith)
                requires
                    -(spl as int) <= vx as int <= spl,
                    -(spl as int) <= vy as int <= spl,
                    0 < max,
                    0 < spl <= 0x100_0000_0000,
                    -0x60_0000_0000 <= vx <= 0x60_0000_0000,
                    -0x60_0000_0000 <= vy <= 0x60_0000_0000,
                    max <= 0x7fffffff_ffffffff;
            lemma_tdiv_bound(vx as int * max as int, spl as int, max as int);
            lemma_tdiv_bound(vy as int * max as int, spl as int, max as int);
        }
        let cx: i64 = div_wide(vx as i128 * max as i128, spl as i128);
        let cy: i64 = div_wide(vy as i128 * max as i128, spl as i128);
        (cx, cy)
    }
}



/// Unpack the world invariant for one live body.
pub proof fn lemma_wf_body(w: World, i: int)
    requires
        w.wf(),
        0 <= i < w.bodies@.len(),
        w.alive@[i],
    ensures
        0 < w.bodies@[i].mass <= MASS_LIMIT,
        -WORLD_VEL_CAP <= w.bodies@[i].vel.x <= WORLD_VEL_CAP,
        -WORLD_VEL_CAP <= w.bodies@[i].vel.y <= WORLD_VEL_CAP,
        -ACC_LIMIT <= w.bodies@[i].acc.x <= ACC_LIMIT,
        -ACC_LIMIT <= w.bodies@[i].acc.y <= ACC_LIMIT,
        -WORLD_POS_CAP <= w.positions@[i].x <= WORLD_POS_CAP,
        -WORLD_POS_CAP <= w.positions@[i].y <= WORLD_POS_CAP,
{
    assert(w.bodies@[i] == w.bodies@[i]);
}


/// The relation `kick1_drift` establishes between the pre- and post-step
/// worlds (its postcondition as a named predicate).
pub open spec fn kick1_post(pre: World, post: World) -> bool {
    &&& post.bodies@.len() == pre.bodies@.len()
    &&& post.positions@.len() == pre.positions@.len()
    &&& post.alive == pre.alive
    &&& post.settings == pre.settings
    &&& post.player == pre.player
    &&& !pre.settings.running ==> post == pre
    &&& pre.settings.running ==> forall|i: int|
        0 <= i < pre.bodies@.len() ==> {
            let b0 = #[trigger] pre.bodies@[i];
            let dte = pre.eff_dt();
            let vhx = b0.vel.x + tdiv(tdiv(b0.acc.x as int * dte, SCALE as int), 2);
            let vhy = b0.vel.y + tdiv(tdiv(b0.acc.y as int * dte, SCALE as int), 2);
            if pre.alive@[i] {
                &&& post.bodies@[i].vel.x == vhx
                &&& post.bodies@[i].vel.y == vhy
                &&& post.bodies@[i].mass == b0.mass
                &&& post.bodies@[i].acc == b0.acc
                &&& post.bodies@[i].class == b0.class
                &&& post.positions@[i].x == pre.positions@[i].x
                    + tdiv(vhx * dte, SCALE as int)
                &&& post.positions@[i].y == pre.positions@[i].y
                    + tdiv(vhy * dte, SCALE as int)
            } else {
                post.bodies@[i] == b0 && post.positions@[i] == pre.positions@[i]
            }
        }
}

/// The relation `rebuild_quadtree` establishes between a world snapshot
/// and the tree built from it.
pub open spec fn rebuild_post(pre: World, t: QuadTree) -> bool {
    &&& wf_node(*t.root, 0)
    &&& aggregates_ok(*t.root)
    &&& mass_sum(*t.root) == total_alive_mass(pre.bodies@, pre.alive@,
        pre.bodies@.len() as int)
    &&& node_quad(*t.root).center == (V2 { x: 0, y: 0 })
    &&& node_quad(*t.root).half_size >= 131072000
    &&& coarsens(live_bag(pre.bodies@, pre.positions@, pre.alive@,
        pre.bodies@.len() as int), leaves(*t.root))
    &&& forall|i: int| 0 <= i < pre.bodies@.len() && pre.alive@[i]
        ==> quad_contains(node_quad(*t.root), (#[trigger] pre.positions@[i]).x as int,
            pre.positions@[i].y as int)
}

/// The relation `apply_bh_forces` establishes, against the tree it walked.
pub open spec fn forces_post(pre: World, post: World, t: QuadTree) -> bool {
    &&& post.bodies@.len() == pre.bodies@.len()
    &&& post.positions == pre.positions
    &&& post.alive == pre.alive
    &&& post.settings == pre.settings
    &&& post.player == pre.player
    &&& !pre.settings.running ==> post == pre
    &&& pre.settings.running ==> forall|i: int|
        0 <= i < pre.bodies@.len() ==> {
            let b0 = #[trigger] pre.bodies@[i];
            let p = pre.positions@[i];
            let dnj = density_for(t, p);
            let th = theta_for(pre.settings, dnj);
            let so = soft_for(pre.settings, dnj);
            if pre.alive@[i] {
                &&& post.bodies@[i].acc.x == clamp_spec(sat64(bh_acc_x(*t.root,
                    p.x as int, p.y as int, pre.settings.g as int, th, so * so)),
                    -ACC_LIMIT as int, ACC_LIMIT as int)
                &&& post.bodies@[i].acc.y == clamp_spec(sat64(bh_acc_y(*t.root,
                    p.x as int, p.y as int, pre.settings.g as int, th, so * so)),
                    -ACC_LIMIT as int, ACC_LIMIT as int)
                &&& post.bodies@[i].mass == b0.mass
                &&& post.bodies@[i].vel == b0.vel
                &&& post.bodies@[i].class == b0.class
            } else {
                post.bodies@[i] == b0
            }
        }
}

/// The relation `kick2` establishes between the pre- and post-kick worlds.
pub open spec fn kick2_post(pre: World, post: World) -> bool {
    &&& post.bodies@.len() == pre.bodies@.len()
    &&& post.positions == pre.positions
    &&& post.alive == pre.alive
    &&& post.settings == pre.settings
    &&& post.player == pre.player
    &&& !pre.settings.running ==> post == pre
    &&& pre.settings.running ==> forall|i: int|
        0 <= i < pre.bodies@.len() ==> {
            let b0 = #[trigger] pre.bodies@[i];
            let dte = pre.eff_dt();
            let vfx = b0.vel.x + tdiv(tdiv(b0.acc.x as int * dte, SCALE as int), 2);
            let vfy = b0.vel.y + tdiv(tdiv(b0.acc.y as int * dte, SCALE as int), 2);
            if pre.alive@[i] {
                &&& post.bodies@[i].vel.x == clampv_x(vfx, vfy, pre.settings.max_vel as int)
                &&& post.bodies@[i].vel.y == clampv_y(vfx, vfy, pre.settings.max_vel as int)
                &&& -(pre.settings.max_vel as int) <= post.bodies@[i].vel.x
                    <= pre.settings.max_vel
                &&& -(pre.settings.max_vel as int) <= post.bodies@[i].vel.y
                    <= pre.settings.max_vel
                &&& post.bodies@[i].mass == b0.mass
                &&& post.bodies@[i].acc == b0.acc
                &&& post.bodies@[i].class == b0.class
            } else {
                post.bodies@[i] == b0
            }
        }
}

/// The relation `spatial_hash_build` establishes between a snapshot and
/// the grid built over it.
pub open spec fn broad_phase_post(pre: World, h: SpatialHash) -> bool {
    &&& hash_wf(h, pre.positions@, pre.alive@)
    &&& h.cell == cell_size_spec(pre.bodies@, pre.alive@)
}

/// The relation `resolve_collisions` establishes between the pre- and
/// post-resolution worlds, the grid it searched, and what it reported.
pub open spec fn resolve_post(
    pre: World, post: World, h: SpatialHash, absorbed: Seq<BodyAbsorbed>,
    removed: Seq<usize>, player_died: bool,
) -> bool {
    &&& post.bodies@.len() == pre.bodies@.len()
    &&& post.positions@.len() == pre.positions@.len()
    &&& post.alive@.len() == pre.alive@.len()
    &&& post.settings == pre.settings
    &&& post.player == pre.player
    &&& pre.settings.collision_mode == CollisionMode::Absorb ==> {
        &&& post.positions == pre.positions
        &&& forall|x: int| 0 <= x < pre.bodies@.len()
            && (#[trigger] post.alive@[x]) ==> pre.alive@[x]
        &&& forall|x: int| 0 <= x < pre.bodies@.len()
            ==> (#[trigger] post.bodies@[x]).acc == pre.bodies@[x].acc
        &&& forall|x: int| 0 <= x < pre.bodies@.len() && post.alive@[x] ==> {
            &&& 0 < (#[trigger] post.bodies@[x]).mass
            &&& -RESOLVE_VEL_CAP <= post.bodies@[x].vel.x <= RESOLVE_VEL_CAP
            &&& -RESOLVE_VEL_CAP <= post.bodies@[x].vel.y <= RESOLVE_VEL_CAP
        }
        &&& exists|ms: Seq<Merge>| {
            &&& #[trigger] ms.len() == absorbed.len()
            &&& forall|k: int| 0 <= k < ms.len() ==> valid_merge(#[trigger] ms[k],
                pre.bodies@, pre.positions@, pre.alive@,
                pre.settings.absorb_bias as int, pre.player)
            &&& forall|k1: int, k2: int| 0 <= k1 < k2 < ms.len()
                ==> (#[trigger] ms[k1]).loser != (#[trigger] ms[k2]).loser
                    && ms[k1].loser != ms[k2].winner
            &&& forall|k: int| 0 <= k < ms.len() ==> {
                let note = #[trigger] absorbed[k];
                &&& note.winner == ms[k].winner
                &&& note.loser_mass == pre.bodies@[ms[k].loser as int].mass
                &&& note.loser_vel == pre.bodies@[ms[k].loser as int].vel
                &&& note.loser_class == pre.bodies@[ms[k].loser as int].class
            }
            &&& forall|x: int| 0 <= x < pre.bodies@.len() && is_winner(ms, x)
                ==> exists|k: int| 0 <= k < ms.len() && (#[trigger] ms[k]).winner == x
                    && post.bodies@[x] == merged_body(pre.bodies@[x], ms[k])
            &&& forall|i: int, j: int|
                0 <= i < pre.bodies@.len() && 0 <= j < pre.bodies@.len() && i != j
                    && pre.alive@[i] && pre.alive@[j]
                    && #[trigger] overlapping(pre.bodies@, pre.positions@, i, j)
                    && radius_spec(pre.bodies@[i].mass as int)
                        + radius_spec(pre.bodies@[j].mass as int) <= h.cell
                    ==> is_loser(ms, i) || is_loser(ms, j)
            &&& forall|x: int| 0 <= x < pre.bodies@.len()
                ==> (#[trigger] post.alive@[x]) == (pre.alive@[x] && !is_loser(ms, x))
            &&& forall|x: int| 0 <= x < pre.bodies@.len()
                && !is_winner(ms, x) && !is_loser(ms, x)
                ==> (#[trigger] post.bodies@[x]) == pre.bodies@[x]
            &&& forall|k: int| 0 <= k < ms.len()
                && (forall|k2: int| 0 <= k2 < ms.len() && k2 != k
                    ==> (#[trigger] ms[k2]).winner != ms[k].winner)
                ==> (#[trigger] post.bodies@[ms[k].winner as int])
                    == merged_body(pre.bodies@[ms[k].winner as int], ms[k])
            &&& removed.len() == ms.len()
            &&& forall|k: int| 0 <= k < ms.len()
                ==> (#[trigger] removed[k]) == ms[k].loser
            &&& player_died == exists|k: int|
                0 <= k < ms.len() && (#[trigger] ms[k]).player_died
        }
    }
    &&& pre.settings.collision_mode == CollisionMode::Elastic ==> {
        &&& post.alive == pre.alive
        &&& absorbed.len() == 0 && removed.len() == 0
        &&& !player_died
        &&& forall|x: int| 0 <= x < pre.bodies@.len() ==> {
            &&& (#[trigger] post.bodies@[x]).mass == pre.bodies@[x].mass
            &&& post.bodies@[x].class == pre.bodies@[x].class
            &&& post.bodies@[x].acc == pre.bodies@[x].acc
        }
        &&& forall|x: int| 0 <= x < pre.bodies@.len() && pre.alive@[x] ==> {
            &&& 0 < (#[trigger] post.bodies@[x]).mass
            &&& -0x20_0000_0000 - RESOLVE_VEL_CAP <= post.bodies@[x].vel.x
                <= RESOLVE_VEL_CAP + 0x20_0000_0000
            &&& -0x20_0000_0000 - RESOLVE_VEL_CAP <= post.bodies@[x].vel.y
                <= RESOLVE_VEL_CAP + 0x20_0000_0000
            &&& -RESOLVE_POS_CAP - 0x1000000 <= post.positions@[x].x
                <= RESOLVE_POS_CAP + 0x1000000
            &&& -RESOLVE_POS_CAP - 0x1000000 <= post.positions@[x].y
                <= RESOLVE_POS_CAP + 0x1000000
        }
        &&& exists|us: Seq<ElasticUpdate>| {
            &&& #[trigger] us.len() % 2 == 0
            &&& forall|p: int| 0 <= p && 2 * p + 1 < us.len()
                ==> valid_elastic_pair(#[trigger] us[2 * p], us[2 * p + 1],
                    pre.bodies@, pre.positions@, pre.alive@,
                    pre.settings.restitution as int)
            &&& forall|q1: int, q2: int| 0 <= q1 < q2 < us.len()
                ==> (#[trigger] us[q1]).idx != (#[trigger] us[q2]).idx
            &&& forall|q: int| 0 <= q < us.len() ==> {
                let u = #[trigger] us[q];
                &&& u.idx < pre.bodies@.len()
                &&& post.bodies@[u.idx as int].vel == u.new_vel
                &&& post.positions@[u.idx as int] == u.new_pos
            }
            &&& forall|i: int, j: int|
                0 <= i < pre.bodies@.len() && 0 <= j < pre.bodies@.len() && i != j
                    && pre.alive@[i] && pre.alive@[j]
                    && #[trigger] overlapping(pre.bodies@, pre.positions@, i, j)
                    && pre.positions@[i] != pre.positions@[j]
                    && radius_spec(pre.bodies@[i].mass as int)
                        + radius_spec(pre.bodies@[j].mass as int) <= h.cell
                    ==> is_updated(us, i) || is_updated(us, j)
            &&& forall|x: int| 0 <= x < pre.bodies@.len() && !is_updated(us, x)
                ==> (#[trigger] post.bodies@[x]) == pre.bodies@[x]
                    && post.positions@[x] == pre.positions@[x]
        }
    }
}

/// What one step hands back to the host: absorption notifications for
/// scoring, the slots despawned by merges, and whether the player was
/// consumed.
pub struct StepOutcome {
    pub absorbed: Vec<BodyAbsorbed>,
    pub removed: Vec<usize>,
    pub player_died: bool,
}

impl World {
    /// Rebuild the uniform broad-phase grid over the current snapshot,
    /// with the cell size adapted to twice the mean body radius. Every
    /// live body lands in exactly one cell, exactly once.
    pub fn spatial_hash_build(&self) -> (h: SpatialHash)
        requires
            self.positions@.len() == self.bodies@.len(),
            self.alive@.len() == self.bodies@.len(),
            self.bodies@.len() <= 0x10000000,
            forall|i: int| 0 <= i < self.bodies@.len() && self.alive@[i]
                ==> (#[trigger] self.bodies@[i]).mass >= 0,
            forall|i: int| 0 <= i < self.bodies@.len() && self.alive@[i]
                ==> -RESOLVE_POS_CAP <= (#[trigger] self.positions@[i]).x
                    <= RESOLVE_POS_CAP
                    && -RESOLVE_POS_CAP <= self.positions@[i].y <= RESOLVE_POS_CAP,
        ensures
            hash_wf(h, self.positions@, self.alive@),
            h.cell == cell_size_spec(self.bodies@, self.alive@),
    {
        let cell = cell_size(&self.bodies, &self.alive);
        let mut h = SpatialHash::empty();
        h.build(cell, &self.positions, &self.alive);
        h
    }
}


impl World {
    /// Resolve collisions with the configured policy over an immutable
    /// snapshot, then apply the instructions. In absorb mode there is a
    /// sequence of sound merge instructions covering every overlapping
    /// live pair the grid can see, and the post-state is its application;
    /// in elastic mode masses, classes and live flags are untouched and
    /// every resolved pair follows the restitution formula.
    pub fn resolve_collisions(&mut self, hash: &SpatialHash) -> (out: StepOutcome)
        requires
            resolve_input_ok(old(self).bodies@, old(self).positions@, old(self).alive@),
            old(self).settings.wf(),
            hash_wf(*hash, old(self).positions@, old(self).alive@),
        ensures
            final(self).bodies@.len() == old(self).bodies@.len(),
            final(self).positions@.len() == old(self).positions@.len(),
            final(self).alive@.len() == old(self).alive@.len(),
            final(self).settings == old(self).settings,
            final(self).player == old(self).player,
            old(self).settings.collision_mode == CollisionMode::Absorb ==> {
                &&& final(self).positions == old(self).positions
                &&& forall|x: int| 0 <= x < old(self).bodies@.len()
                    && (#[trigger] final(self).alive@[x]) ==> old(self).alive@[x]
                &&& forall|x: int| 0 <= x < old(self).bodies@.len()
                    ==> (#[trigger] final(self).bodies@[x]).acc
                        == old(self).bodies@[x].acc
                &&& forall|x: int| 0 <= x < old(self).bodies@.len()
                    && final(self).alive@[x] ==> {
                    &&& 0 < (#[trigger] final(self).bodies@[x]).mass
                    &&& -RESOLVE_VEL_CAP <= final(self).bodies@[x].vel.x
                        <= RESOLVE_VEL_CAP
                    &&& -RESOLVE_VEL_CAP <= final(self).bodies@[x].vel.y
                        <= RESOLVE_VEL_CAP
                }
                &&& exists|ms: Seq<Merge>| {
                    &&& #[trigger] ms.len() == out.absorbed@.len()
                    &&& forall|k: int| 0 <= k < ms.len() ==> valid_merge(
                        #[trigger] ms[k], old(self).bodies@, old(self).positions@,
                        old(self).alive@, old(self).settings.absorb_bias as int,
                        old(self).player)
                    &&& forall|k1: int, k2: int| 0 <= k1 < k2 < ms.len()
                        ==> (#[trigger] ms[k1]).loser != (#[trigger] ms[k2]).loser
                            && ms[k1].loser != ms[k2].winner
                    &&& forall|k: int| 0 <= k < ms.len() ==> {
                        let note = #[trigger] out.absorbed@[k];
                        &&& note.winner == ms[k].winner
                        &&& note.loser_mass == old(self).bodies@[ms[k].loser as int].mass
                        &&& note.loser_vel == old(self).bodies@[ms[k].loser as int].vel
                        &&& note.loser_class
                            == old(self).bodies@[ms[k].loser as int].class
                    }
                    &&& forall|x: int| 0 <= x < old(self).bodies@.len()
                        && is_winner(ms, x)
                        ==> exists|k: int| 0 <= k < ms.len()
                            && (#[trigger] ms[k]).winner == x
                            && final(self).bodies@[x]
                                == merged_body(old(self).bodies@[x], ms[k])
                    &&& forall|i: int, j: int|
                        0 <= i < old(self).bodies@.len()
                            && 0 <= j < old(self).bodies@.len() && i != j
                            && old(self).alive@[i] && old(self).alive@[j]
                            && #[trigger] overlapping(old(self).bodies@,
                                old(self).positions@, i, j)
                            && radius_spec(old(self).bodies@[i].mass as int)
                                + radius_spec(old(self).bodies@[j].mass as int)
                                <= hash.cell
                            ==> is_loser(ms, i) || is_loser(ms, j)
                    &&& forall|x: int| 0 <= x < old(self).bodies@.len()
                        ==> (#[trigger] final(self).alive@[x])
                            == (old(self).alive@[x] && !is_loser(ms, x))
                    &&& forall|x: int| 0 <= x < old(self).bodies@.len()
                        && !is_winner(ms, x) && !is_loser(ms, x)
                        ==> (#[trigger] final(self).bodies@[x]) == old(self).bodies@[x]
                    &&& forall|k: int| 0 <= k < ms.len()
                        && (forall|k2: int| 0 <= k2 < ms.len() && k2 != k
                            ==> (#[trigger] ms[k2]).winner != ms[k].winner)
                        ==> (#[trigger] final(self).bodies@[ms[k].winner as int])
                            == merged_body(old(self).bodies@[ms[k].winner as int], ms[k])
                    &&& out.removed@.len() == ms.len()
                    &&& forall|k: int| 0 <= k < ms.len()
                        ==> (#[trigger] out.removed@[k]) == ms[k].loser
                    &&& out.player_died == exists|k: int|
                        0 <= k < ms.len() && (#[trigger] ms[k]).player_died
                }
            },
            old(self).settings.collision_mode == CollisionMode::Elastic ==> {
                &&& final(self).alive == old(self).alive
                &&& out.absorbed@.len() == 0 && out.removed@.len() == 0
                &&& !out.player_died
                &&& forall|x: int| 0 <= x < old(self).bodies@.len() ==> {
                    &&& (#[trigger] final(self).bodies@[x]).mass
                        == old(self).bodies@[x].mass
                    &&& final(self).bodies@[x].class == old(self).bodies@[x].class
                    &&& final(self).bodies@[x].acc == old(self).bodies@[x].acc
                }
                &&& forall|x: int| 0 <= x < old(self).bodies@.len()
                    && old(self).alive@[x]
                    ==> 0 < (#[trigger] final(self).bodies@[x]).mass
                &&& forall|x: int| 0 <= x < old(self).bodies@.len()
                    && old(self).alive@[x] ==> {
                    &&& -0x20_0000_0000 - RESOLVE_VEL_CAP
                        <= (#[trigger] final(self).bodies@[x]).vel.x
                        <= RESOLVE_VEL_CAP + 0x20_0000_0000
                    &&& -0x20_0000_0000 - RESOLVE_VEL_CAP <= final(self).bodies@[x].vel.y
                        <= RESOLVE_VEL_CAP + 0x20_0000_0000
                    &&& -RESOLVE_POS_CAP - 0x1000000 <= final(self).positions@[x].x
                        <= RESOLVE_POS_CAP + 0x1000000
                    &&& -RESOLVE_POS_CAP - 0x1000000 <= final(self).positions@[x].y
                        <= RESOLVE_POS_CAP + 0x1000000
                }
                &&& exists|us: Seq<ElasticUpdate>| {
                    &&& #[trigger] us.len() % 2 == 0
                    &&& forall|p: int| 0 <= p && 2 * p + 1 < us.len()
                        ==> valid_elastic_pair(#[trigger] us[2 * p], us[2 * p + 1],
                            old(self).bodies@, old(self).positions@, old(self).alive@,
                            old(self).settings.restitution as int)
                    &&& forall|q1: int, q2: int| 0 <= q1 < q2 < us.len()
                        ==> (#[trigger] us[q1]).idx != (#[trigger] us[q2]).idx
                    &&& forall|q: int| 0 <= q < us.len() ==> {
                        let u = #[trigger] us[q];
                        &&& u.idx < old(self).bodies@.len()
                        &&& final(self).bodies@[u.idx as int].vel == u.new_vel
                        &&& final(self).positions@[u.idx as int] == u.new_pos
                    }
                    &&& forall|i: int, j: int|
                        0 <= i < old(self).bodies@.len()
                            && 0 <= j < old(self).bodies@.len() && i != j
                            && old(self).alive@[i] && old(self).alive@[j]
                            && #[trigger] overlapping(old(self).bodies@,
                                old(self).positions@, i, j)
                            && old(self).positions@[i] != old(self).positions@[j]
                            && radius_spec(old(self).bodies@[i].mass as int)
                                + radius_spec(old(self).bodies@[j].mass as int)
                                <= hash.cell
                            ==> is_updated(us, i) || is_updated(us, j)
                    &&& forall|x: int| 0 <= x < old(self).bodies@.len()
                        && !is_updated(us, x)
                        ==> (#[trigger] final(self).bodies@[x]) == old(self).bodies@[x]
                            && final(self).positions@[x] == old(self).positions@[x]
                }
            },
    {
        match self.settings.collision_mode {
            CollisionMode::Absorb => {
                let (merges, notes) = absorb_decide(&self.bodies, &self.positions,
                    &self.alive, hash, self.settings.absorb_bias, self.player);
                let mut removed: Vec<usize> = Vec::new();
                let mut k: usize = 0;
                while k < merges.len()
                    invariant
                        k <= merges@.len(),
                        removed@.len() == k,
                        forall|kk: int| 0 <= kk < k
                            ==> (#[trigger] removed@[kk]) == merges@[kk].loser,
                    decreases merges@.len() - k,
                {
                    removed.push(merges[k].loser);
                    k = k + 1;
                }
                let player_died = absorb_apply(&mut self.bodies, &mut self.alive,
                    &merges);
                proof {
                    assert(merges@.len() == notes@.len());
                    assert(merges@.len() == notes@.len() && removed@.len() == merges@.len());
                    let ghost bias = old(self).settings.absorb_bias as int;
                    assert forall|x: int| 0 <= x < self.bodies@.len() && self.alive@[x]
                        implies 0 < (#[trigger] self.bodies@[x]).mass
                            && -RESOLVE_VEL_CAP <= self.bodies@[x].vel.x
                            <= RESOLVE_VEL_CAP
                            && -RESOLVE_VEL_CAP <= self.bodies@[x].vel.y
                            <= RESOLVE_VEL_CAP
                    by {
                        assert(0 < old(self).bodies@[x].mass);
                        if is_winner(merges@, x) {
                            let k = choose|k: int| 0 <= k < merges@.len()
                                && (#[trigger] merges@[k]).winner == x
                                && self.bodies@[x] == merged_body(
                                    old(self).bodies@[x], merges@[k]);
                            let w = merges@[k].winner as int;
                            let l = merges@[k].loser as int;
                            assert(valid_merge(merges@[k], old(self).bodies@,
                                old(self).positions@, old(self).alive@, bias,
                                old(self).player));
                            assert(0 < old(self).bodies@[l].mass);
                            crate::collide::lemma_merge_mass_conserved(
                                old(self).bodies@[w].mass as int,
                                old(self).bodies@[l].mass as int, bias);
                            crate::collide::lemma_weighted_vel(
                                old(self).bodies@[w].mass as int,
                                old(self).bodies@[w].vel.x as int,
                                old(self).bodies@[l].mass as int,
                                old(self).bodies@[l].vel.x as int);
                            crate::collide::lemma_weighted_vel(
                                old(self).bodies@[w].mass as int,
                                old(self).bodies@[w].vel.y as int,
                                old(self).bodies@[l].mass as int,
                                old(self).bodies@[l].vel.y as int);
                        }
                    }
                }
                StepOutcome { absorbed: notes, removed, player_died }
            },
            CollisionMode::Elastic => {
                let updates = elastic_decide(&self.bodies, &self.positions, &self.alive,
                    hash, self.settings.restitution);
                elastic_apply(&mut self.bodies, &mut self.positions, &updates);
                proof {
                    assert(updates@.len() % 2 == 0);
                    assert forall|x: int| 0 <= x < self.bodies@.len()
                        && old(self).alive@[x]
                        implies -0x20_0000_0000 - RESOLVE_VEL_CAP
                            <= (#[trigger] self.bodies@[x]).vel.x
                            <= RESOLVE_VEL_CAP + 0x20_0000_0000
                            && -0x20_0000_0000 - RESOLVE_VEL_CAP
                            <= self.bodies@[x].vel.y
                            <= RESOLVE_VEL_CAP + 0x20_0000_0000
                            && -RESOLVE_POS_CAP - 0x1000000 <= self.positions@[x].x
                            <= RESOLVE_POS_CAP + 0x1000000
                            && -RESOLVE_POS_CAP - 0x1000000 <= self.positions@[x].y
                            <= RESOLVE_POS_CAP + 0x1000000
                    by {
                        if is_updated(updates@, x) {
                            let q = choose|q: int| 0 <= q < updates@.len()
                                && (#[trigger] updates@[q]).idx == x;
                        } else {
                            assert(old(self).bodies@[x].mass > 0);
                        }
                    }
                }
                StepOutcome {
                    absorbed: Vec::new(),
                    removed: Vec::new(),
                    player_died: false,
                }
            },
        }
    }

    /// One full simulation step, in the fixed sequential order: first
    /// half-kick and drift, quadtree rebuild, Barnes-Hut forces, second
    /// half-kick with the speed ceiling, spatial-hash rebuild, collision
    /// resolution. A paused world is returned untouched. A running step is
    /// exactly the composition of the six stage relations, witnessed by
    /// the intermediate worlds, the tree, and the grid. The machine-limit
    /// invariant is re-established whenever the host-checkable parts of it
    /// (total mass and position extent) still hold afterwards.
    pub fn step(&mut self) -> (out: StepOutcome)
        requires
            old(self).wf(),
        ensures
            final(self).bodies@.len() == old(self).bodies@.len(),
            final(self).positions@.len() == old(self).positions@.len(),
            final(self).alive@.len() == old(self).alive@.len(),
            final(self).settings == old(self).settings,
            final(self).player == old(self).player,
            !old(self).settings.running ==> *final(self) == *old(self)
                && out.absorbed@.len() == 0 && out.removed@.len() == 0
                && !out.player_died && final(self).wf(),
            old(self).settings.running ==> exists|w1: World, w2: World, w3: World,
                t: QuadTree, h: SpatialHash|
                #![trigger kick1_post(*old(self), w1), forces_post(w1, w2, t),
                    kick2_post(w2, w3), broad_phase_post(w3, h)]
                {
                    &&& kick1_post(*old(self), w1)
                    &&& rebuild_post(w1, t)
                    &&& forces_post(w1, w2, t)
                    &&& kick2_post(w2, w3)
                    &&& broad_phase_post(w3, h)
                    &&& resolve_post(w3, *final(self), h, out.absorbed@, out.removed@,
                        out.player_died)
                },
            forall|i: int| 0 <= i < final(self).bodies@.len()
                && (#[trigger] final(self).alive@[i]) ==> {
                let b = final(self).bodies@[i];
                &&& 0 < b.mass
                &&& -WORLD_VEL_CAP <= b.vel.x <= WORLD_VEL_CAP
                &&& -WORLD_VEL_CAP <= b.vel.y <= WORLD_VEL_CAP
                &&& -ACC_LIMIT <= b.acc.x <= ACC_LIMIT
                &&& -ACC_LIMIT <= b.acc.y <= ACC_LIMIT
            },
            (total_alive_mass(final(self).bodies@, final(self).alive@,
                    final(self).bodies@.len() as int) <= MASS_LIMIT
                && (forall|i: int| 0 <= i < final(self).bodies@.len()
                    && (#[trigger] final(self).alive@[i])
                    ==> -WORLD_POS_CAP <= final(self).positions@[i].x <= WORLD_POS_CAP
                        && -WORLD_POS_CAP <= final(self).positions@[i].y
                        <= WORLD_POS_CAP))
                ==> final(self).wf(),
    {
        let ghost w0 = *self;
        self.kick1_drift();
        let ghost w1 = *self;
        proof {
            assert forall|i: int| 0 <= i < self.bodies@.len()
                implies (#[trigger] self.bodies@[i]).mass == w0.bodies@[i].mass by {
                assert(w0.bodies@[i] == w0.bodies@[i]);
            }
            lemma_total_mass_agree(w0.bodies@, w0.alive@, self.bodies@, self.alive@,
                w0.bodies@.len() as int);
            assert forall|i: int| 0 <= i < self.bodies@.len() && self.alive@[i]
                implies 0 < (#[trigger] self.bodies@[i]).mass <= MASS_LIMIT by {
                lemma_wf_body(w0, i);
            }
            assert forall|i: int| 0 <= i < self.bodies@.len() && self.alive@[i]
                implies -WORLD_POS_CAP - 0x40_0000_0000
                    <= (#[trigger] self.positions@[i]).x
                    <= WORLD_POS_CAP + 0x40_0000_0000
                    && -WORLD_POS_CAP - 0x40_0000_0000 <= self.positions@[i].y
                    <= WORLD_POS_CAP + 0x40_0000_0000 by {
                lemma_wf_body(w0, i);
            }
        }
        let tree = self.rebuild_quadtree();
        proof {
            assert forall|i: int| 0 <= i < self.bodies@.len() && self.alive@[i]
                implies -TREE_SPAN <= (#[trigger] self.positions@[i]).x <= TREE_SPAN
                    && -TREE_SPAN <= self.positions@[i].y <= TREE_SPAN by {
                lemma_wf_body(w0, i);
            }
        }
        self.apply_bh_forces(&tree);
        let ghost w2 = *self;
        proof {
            assert forall|i: int| 0 <= i < self.bodies@.len() && self.alive@[i]
                implies {
                    let b = #[trigger] self.bodies@[i];
                    &&& -0x50_0000_0000 <= b.vel.x <= 0x50_0000_0000
                    &&& -0x50_0000_0000 <= b.vel.y <= 0x50_0000_0000
                    &&& -ACC_LIMIT <= b.acc.x <= ACC_LIMIT
                    &&& -ACC_LIMIT <= b.acc.y <= ACC_LIMIT
                } by {
                lemma_wf_body(w0, i);
                assert(w2.bodies@[i] == w2.bodies@[i]);
            }
        }
        self.kick2();
        let ghost w3 = *self;
        if !self.settings.running {
            proof {
                assert(*self == w0);
                assert forall|i: int| 0 <= i < self.bodies@.len()
                    && (#[trigger] self.alive@[i]) implies {
                        let b = self.bodies@[i];
                        &&& 0 < b.mass
                        &&& -WORLD_VEL_CAP <= b.vel.x <= WORLD_VEL_CAP
                        &&& -WORLD_VEL_CAP <= b.vel.y <= WORLD_VEL_CAP
                        &&& -ACC_LIMIT <= b.acc.x <= ACC_LIMIT
                        &&& -ACC_LIMIT <= b.acc.y <= ACC_LIMIT
                    } by {
                    lemma_wf_body(w0, i);
                }
            }
            return StepOutcome {
                absorbed: Vec::new(),
                removed: Vec::new(),
                player_died: false,
            };
        }
        proof {
            assert forall|i: int| 0 <= i < self.bodies@.len()
                && self.alive@[i]
                implies (#[trigger] self.bodies@[i]).mass >= 0
                    && 0 < self.bodies@[i].mass <= MASS_LIMIT
                    && -RESOLVE_VEL_CAP <= self.bodies@[i].vel.x <= RESOLVE_VEL_CAP
                    && -RESOLVE_VEL_CAP <= self.bodies@[i].vel.y <= RESOLVE_VEL_CAP
                    && -RESOLVE_POS_CAP <= self.positions@[i].x <= RESOLVE_POS_CAP
                    && -RESOLVE_POS_CAP <= self.positions@[i].y <= RESOLVE_POS_CAP by {
                lemma_wf_body(w0, i);
                assert(w2.bodies@[i] == w2.bodies@[i]);
                assert(w3.bodies@[i] == w3.bodies@[i]);
            }
        }
        let hash = self.spatial_hash_build();
        let out = self.resolve_collisions(&hash);
        proof {
            assert(kick1_post(w0, w1));
            assert(rebuild_post(w1, tree));
            assert(forces_post(w1, w2, tree));
            assert(kick2_post(w2, w3));
            assert(broad_phase_post(w3, hash));
            assert(resolve_post(w3, *self, hash, out.absorbed@, out.removed@,
                out.player_died));
            assert forall|i: int| 0 <= i < self.bodies@.len()
                && (#[trigger] self.alive@[i]) implies {
                    let b = self.bodies@[i];
                    &&& 0 < b.mass
                    &&& -WORLD_VEL_CAP <= b.vel.x <= WORLD_VEL_CAP
                    &&& -WORLD_VEL_CAP <= b.vel.y <= WORLD_VEL_CAP
                    &&& -ACC_LIMIT <= b.acc.x <= ACC_LIMIT
                    &&& -ACC_LIMIT <= b.acc.y <= ACC_LIMIT
                } by {
                // the slot was live at every earlier stage
                assert(w3.alive@[i]);
                assert(w0.alive@[i]);
                lemma_wf_body(w0, i);
                assert(w0.bodies@[i] == w0.bodies@[i]);
                assert(w1.bodies@[i] == w1.bodies@[i]);
                assert(w2.bodies@[i] == w2.bodies@[i]);
                assert(w3.bodies@[i] == w3.bodies@[i]);
                assert(w3.bodies@[i].acc == w2.bodies@[i].acc);
                assert(self.bodies@[i].acc == w3.bodies@[i].acc);
                assert(-ACC_LIMIT <= w2.bodies@[i].acc.x <= ACC_LIMIT
                    && -ACC_LIMIT <= w2.bodies@[i].acc.y <= ACC_LIMIT);
            }
        }
        proof {
            let n = self.bodies@.len() as int;
            if total_alive_mass(self.bodies@, self.alive@, n) <= MASS_LIMIT
                && (forall|i: int| 0 <= i < n && (#[trigger] self.alive@[i])
                    ==> -WORLD_POS_CAP <= self.positions@[i].x <= WORLD_POS_CAP
                        && -WORLD_POS_CAP <= self.positions@[i].y <= WORLD_POS_CAP) {
                assert forall|i: int| 0 <= i < n && (#[trigger] self.alive@[i])
                    implies self.bodies@[i].mass <= MASS_LIMIT by {
                    lemma_total_mass_prefix(self.bodies@, self.alive@, i, n);
                }
                assert(self.wf());
            }
        }
        out
    }
}

} // verus!
