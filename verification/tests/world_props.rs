//! Whole-world behavior: the bound two-body orbit, the spatial hash, and
//! the step pipeline bookkeeping.

use gravitas::fx::SCALE;
use gravitas::vec2::V2;
use gravitas::settings::{SimSettings, CollisionMode};
use gravitas::world::World;
use gravitas::hash::SpatialHash;

fn fx(units: i64) -> i64 {
    units * SCALE
}

fn isqrt_u128(n: u128) -> u128 {
    let mut lo: u128 = 0;
    let mut hi: u128 = 1 << 64;
    while lo + 1 < hi {
        let mid = lo + (hi - lo) / 2;
        if mid * mid <= n {
            lo = mid;
        } else {
            hi = mid;
        }
    }
    lo
}

fn distance_fx(w: &World, a: usize, b: usize) -> i64 {
    let dx = w.positions[b].x as i128 - w.positions[a].x as i128;
    let dy = w.positions[b].y as i128 - w.positions[a].y as i128;
    isqrt_u128((dx * dx + dy * dy) as u128) as i64
}

/// A two-body configuration on near-circular orbits stays bound over ten
/// thousand leapfrog steps: the separation never leaves `[r/2, 2r]`.
#[test]
fn two_body_orbit_stays_bound() {
    let mut s = SimSettings::standard();
    s.g = 120 * SCALE;
    s.dt = 328; // 0.005
    s.time_scale = SCALE;
    s.theta = 39322; // 0.6, well under the 0.8 bound
    s.adaptive_theta = false;
    s.adaptive_softening = false;
    s.softening = SCALE; // one unit, negligible at r = 600
    s.max_vel = 1073741824;
    s.collision_mode = CollisionMode::Elastic; // never triggers at r ~ 600
    s.running = true;

    let m1 = fx(400_000);
    let m2 = fx(200_000);
    let r: i64 = 600;
    // v1 = sqrt(g * m2 / (2 r)), v2 = sqrt(g * m1 / (2 r)), opposite
    let v1 = ((120.0f64 * 200_000.0 / (2.0 * r as f64)).sqrt() * SCALE as f64) as i64;
    let v2 = ((120.0f64 * 400_000.0 / (2.0 * r as f64)).sqrt() * SCALE as f64) as i64;

    let mut w = World::empty(s);
    let a = w.add_body(V2 { x: -fx(r) / 2, y: 0 }, V2 { x: 0, y: v1 }, m1);
    let b = w.add_body(V2 { x: fx(r) / 2, y: 0 }, V2 { x: 0, y: -v2 }, m2);

    let lo = fx(r) / 2;
    let hi = fx(r) * 2;
    for _ in 0..10_000 {
        w.step();
        let d = distance_fx(&w, a, b);
        assert!(d >= lo, "orbit collapsed below half the initial separation");
        assert!(d <= hi, "orbit escaped past twice the initial separation");
    }
    assert!(w.alive[a] && w.alive[b]);
}

/// Every live body lands in exactly one spatial-hash cell per rebuild.
#[test]
fn hash_buckets_hold_each_live_body_once() {
    let mut s = SimSettings::standard();
    s.collision_mode = CollisionMode::Elastic;
    let mut w = World::empty(s);
    let pts = [
        (0i64, 0i64),
        (5, 3),
        (-40, 12),
        (999, -999),
        (-1, -1),
        (1000, 1000),
    ];
    for &(x, y) in pts.iter() {
        w.add_body(V2 { x: fx(x), y: fx(y) }, V2 { x: 0, y: 0 }, fx(50));
    }
    // one dead slot must not appear in any bucket
    let dead = w.add_body(V2 { x: fx(7), y: fx(7) }, V2 { x: 0, y: 0 }, fx(50));
    w.alive[dead] = false;

    let h: SpatialHash = w.spatial_hash_build();
    let mut seen = vec![0usize; w.bodies.len()];
    for bucket in h.buckets.iter() {
        for &idx in bucket.items.iter() {
            seen[idx] += 1;
        }
    }
    for i in 0..pts.len() {
        assert_eq!(seen[i], 1, "live body missing or duplicated in the grid");
    }
    assert_eq!(seen[dead], 0);
}

/// A colliding pair whose combined radius fits the cell size is never
/// missed, even straddling a cell boundary.
#[test]
fn neighborhood_search_catches_boundary_pair() {
    let mut s = SimSettings::standard();
    s.g = 0;
    s.collision_mode = CollisionMode::Absorb;
    s.absorb_bias = 0;
    let mut w = World::empty(s);
    // the cell size is twice the mean radius; these two sit in adjacent
    // cells with overlapping disks
    w.add_body(V2 { x: -fx(1), y: 0 }, V2 { x: 0, y: 0 }, fx(200));
    w.add_body(V2 { x: fx(1), y: 0 }, V2 { x: 0, y: 0 }, fx(100));
    let out = w.step();
    assert_eq!(out.removed.len(), 1);
    assert_eq!(out.removed[0], 1);
    assert!(w.alive[0] && !w.alive[1]);
}

/// The absorbed notification carries the loser's snapshot state.
#[test]
fn absorbed_notification_reports_loser() {
    let mut s = SimSettings::standard();
    s.g = 0;
    s.collision_mode = CollisionMode::Absorb;
    s.absorb_bias = 0;
    let mut w = World::empty(s);
    w.add_body(V2 { x: 0, y: 0 }, V2 { x: 0, y: 0 }, fx(900));
    w.add_body(V2 { x: fx(2), y: 0 }, V2 { x: fx(7), y: -fx(3) }, fx(90));
    let out = w.step();
    assert_eq!(out.absorbed.len(), 1);
    let note = &out.absorbed[0];
    assert_eq!(note.winner, 0);
    assert_eq!(note.loser_mass, fx(90));
    assert_eq!(note.loser_vel.x, fx(7));
    assert_eq!(note.loser_vel.y, -fx(3));
}

/// A paused world does not move.
#[test]
fn paused_world_is_untouched() {
    let mut s = SimSettings::standard();
    s.running = false;
    let mut w = World::empty(s);
    w.add_body(V2 { x: fx(10), y: fx(20) }, V2 { x: fx(3), y: fx(4) }, fx(100));
    let out = w.step();
    assert_eq!(w.positions[0], V2 { x: fx(10), y: fx(20) });
    assert_eq!(w.bodies[0].vel, V2 { x: fx(3), y: fx(4) });
    assert!(out.removed.is_empty() && out.absorbed.is_empty());
}

/// The velocity ceiling clamps the speed after the second kick.
#[test]
fn speed_is_clamped_to_ceiling() {
    let mut s = SimSettings::standard();
    s.g = 120 * SCALE;
    s.max_vel = fx(5);
    s.collision_mode = CollisionMode::Elastic;
    let mut w = World::empty(s);
    // two heavy bodies close together: strong pull, speed must still cap
    w.add_body(V2 { x: 0, y: 0 }, V2 { x: fx(4), y: fx(4) }, fx(900_000));
    w.add_body(V2 { x: fx(100), y: 0 }, V2 { x: -fx(4), y: -fx(4) }, fx(900_000));
    for _ in 0..50 {
        w.step();
        for i in 0..2 {
            assert!(w.bodies[i].vel.x.abs() <= fx(5));
            assert!(w.bodies[i].vel.y.abs() <= fx(5));
        }
    }
}
