//! Collision resolution: absorb conservation laws, elastic restitution
//! behavior, the coincident-pair guard, and the deterministic tie-break.

use gravitas::fx::SCALE;
use gravitas::vec2::V2;
use gravitas::body::Class;
use gravitas::settings::{SimSettings, Scenario, CollisionMode};
use gravitas::world::World;

fn fx(units: i64) -> i64 {
    units * SCALE
}

fn quiet_settings(mode: CollisionMode) -> SimSettings {
    let mut s = SimSettings::standard();
    s.g = 0; // no gravity: isolate the collision stage
    s.collision_mode = mode;
    s.adaptive_theta = false;
    s.adaptive_softening = false;
    s.time_scale = SCALE;
    s.dt = 328;
    s
}

fn total_live_mass(w: &World) -> i128 {
    let mut sum: i128 = 0;
    for i in 0..w.bodies.len() {
        if w.alive[i] {
            sum += w.bodies[i].mass as i128;
        }
    }
    sum
}

fn total_live_momentum(w: &World) -> (i128, i128) {
    let mut px: i128 = 0;
    let mut py: i128 = 0;
    for i in 0..w.bodies.len() {
        if w.alive[i] {
            px += w.bodies[i].mass as i128 * w.bodies[i].vel.x as i128;
            py += w.bodies[i].mass as i128 * w.bodies[i].vel.y as i128;
        }
    }
    (px, py)
}

#[test]
fn absorb_zero_bias_conserves_mass_and_momentum() {
    let mut s = quiet_settings(CollisionMode::Absorb);
    s.absorb_bias = 0;
    let mut w = World::empty(s);
    // both bodies are asteroids with overlapping disks
    w.add_body(V2 { x: 0, y: 0 }, V2 { x: fx(3), y: fx(1) }, fx(300));
    w.add_body(V2 { x: fx(2), y: 0 }, V2 { x: -fx(5), y: fx(2) }, fx(100));
    let m_before = total_live_mass(&w);
    let (p_before_x, p_before_y) = total_live_momentum(&w);

    let out = w.step();

    assert_eq!(out.removed.len(), 1);
    assert_eq!(out.absorbed.len(), 1);
    assert!(!out.player_died);
    assert_eq!(total_live_mass(&w), m_before);
    let (p_after_x, p_after_y) = total_live_momentum(&w);
    // momentum conserved up to the fixed-point quantum (< total mass)
    assert!((p_after_x - p_before_x).abs() < m_before);
    assert!((p_after_y - p_before_y).abs() < m_before);
}

#[test]
fn absorb_bias_grows_winner_within_bounds() {
    let mut s = quiet_settings(CollisionMode::Absorb);
    s.absorb_bias = SCALE / 10; // ten percent bonus
    let mut w = World::empty(s);
    let m1 = fx(300);
    let m2 = fx(100);
    w.add_body(V2 { x: 0, y: 0 }, V2 { x: 0, y: 0 }, m1);
    w.add_body(V2 { x: fx(2), y: 0 }, V2 { x: 0, y: 0 }, m2);
    w.step();

    assert!(w.alive[0]);
    assert!(!w.alive[1]);
    let merged = w.bodies[0].mass;
    // merged mass lies in [max(m1, m2), m1 + m2 + m1 * bias]
    assert!(merged >= m1);
    assert!(merged >= m2);
    assert!(merged <= m1 + m2 + m1 / 10);
    // and exactly the documented formula: m1 * (1 + bias) + m2
    let expected = (m1 as i128 * (SCALE as i128 + (SCALE / 10) as i128)
        / SCALE as i128) as i64 + m2;
    assert_eq!(merged, expected);
}

#[test]
fn absorb_winner_updates_class() {
    let mut s = quiet_settings(CollisionMode::Absorb);
    s.absorb_bias = 0;
    let mut w = World::empty(s);
    // 400 + 150 crosses the asteroid/planet threshold of 500
    w.add_body(V2 { x: 0, y: 0 }, V2 { x: 0, y: 0 }, fx(400));
    w.add_body(V2 { x: fx(1), y: 0 }, V2 { x: 0, y: 0 }, fx(150));
    assert_eq!(w.bodies[0].class, Class::Asteroid);
    w.step();
    assert_eq!(w.bodies[0].mass, fx(550));
    assert_eq!(w.bodies[0].class, Class::Planet);
}

#[test]
fn absorb_black_hole_beats_heavier_star() {
    let mut s = quiet_settings(CollisionMode::Absorb);
    s.absorb_bias = 0;
    let mut w = World::empty(s);
    // a black hole (mass over one million) overlapping... it cannot: its
    // radius is at most 60. use a star instead and check mass order wins
    let heavy = fx(900_000); // star, radius clamp 32
    let bh = fx(1_100_000); // black hole, radius clamp up to 60
    w.add_body(V2 { x: 0, y: 0 }, V2 { x: 0, y: 0 }, heavy);
    let b = w.add_body(V2 { x: fx(60), y: 0 }, V2 { x: 0, y: 0 }, bh);
    w.step();
    // the black hole wins although it would also win by mass here; the
    // point is that the lighter star is the one despawned
    assert!(w.alive[b]);
    assert!(!w.alive[0]);
}

#[test]
fn absorb_equal_mass_tie_lower_index_wins() {
    let mut s = quiet_settings(CollisionMode::Absorb);
    s.absorb_bias = 0;
    let mut w = World::empty(s);
    w.add_body(V2 { x: 0, y: 0 }, V2 { x: 0, y: 0 }, fx(100));
    w.add_body(V2 { x: fx(2), y: 0 }, V2 { x: 0, y: 0 }, fx(100));
    w.step();
    assert!(w.alive[0]);
    assert!(!w.alive[1]);
    assert_eq!(w.bodies[0].mass, fx(200));
}

#[test]
fn elastic_unit_restitution_reverses_relative_velocity() {
    let mut s = quiet_settings(CollisionMode::Elastic);
    s.restitution = SCALE; // perfectly elastic
    let mut w = World::empty(s);
    // equal masses colliding head-on along x: velocities swap
    w.add_body(V2 { x: 0, y: 0 }, V2 { x: fx(4), y: 0 }, fx(100));
    w.add_body(V2 { x: fx(2), y: 0 }, V2 { x: -fx(4), y: 0 }, fx(100));
    let ke_before = 100i128 * 4 * 4 + 100 * 4 * 4;
    w.step();
    assert!(w.alive[0] && w.alive[1]);
    // equal-mass elastic head-on collision swaps the normal velocities
    let v0 = w.bodies[0].vel;
    let v1 = w.bodies[1].vel;
    assert!(v0.x < 0 && v1.x > 0);
    // kinetic energy along the normal is conserved within the rounding
    // of one velocity quantum per body
    let ke_after = 100i128 * (v0.x as i128 / SCALE as i128).pow(2)
        + 100 * (v1.x as i128 / SCALE as i128).pow(2);
    assert!((ke_after - ke_before).abs() <= ke_before / 50);
}

#[test]
fn elastic_zero_restitution_shares_normal_velocity() {
    let mut s = quiet_settings(CollisionMode::Elastic);
    s.restitution = 0;
    let mut w = World::empty(s);
    w.add_body(V2 { x: 0, y: 0 }, V2 { x: fx(4), y: 0 }, fx(100));
    w.add_body(V2 { x: fx(2), y: 0 }, V2 { x: -fx(4), y: 0 }, fx(300));
    w.step();
    // both bodies leave with the same normal (x) velocity component: the
    // truncated mass-weighted average (100*4 + 300*(-4)) / 400 = -2
    assert_eq!(w.bodies[0].vel.x, w.bodies[1].vel.x);
    assert_eq!(w.bodies[0].vel.x, -fx(2));
    // masses and classes are untouched in elastic mode
    assert_eq!(w.bodies[0].mass, fx(100));
    assert_eq!(w.bodies[1].mass, fx(300));
}

#[test]
fn elastic_coincident_pair_is_skipped() {
    let mut s = quiet_settings(CollisionMode::Elastic);
    s.restitution = SCALE;
    let mut w = World::empty(s);
    // exactly the same position and velocity: the drift keeps them
    // coincident, no collision normal exists, and the pair is skipped
    // without crashing and without touching velocities
    w.add_body(V2 { x: fx(5), y: fx(5) }, V2 { x: fx(2), y: fx(1) }, fx(100));
    w.add_body(V2 { x: fx(5), y: fx(5) }, V2 { x: fx(2), y: fx(1) }, fx(100));
    let out = w.step();
    assert!(w.alive[0] && w.alive[1]);
    assert_eq!(w.bodies[0].vel, w.bodies[1].vel);
    assert_eq!(w.bodies[0].vel.x, fx(2));
    assert_eq!(w.bodies[0].vel.y, fx(1));
    assert_eq!(w.positions[0], w.positions[1]);
    assert!(out.removed.is_empty());
}

#[test]
fn elastic_separates_overlapping_pair() {
    let mut s = quiet_settings(CollisionMode::Elastic);
    s.restitution = SCALE / 2;
    let mut w = World::empty(s);
    let before = fx(2);
    w.add_body(V2 { x: 0, y: 0 }, V2 { x: 0, y: 0 }, fx(100));
    w.add_body(V2 { x: before, y: 0 }, V2 { x: 0, y: 0 }, fx(100));
    w.step();
    // the pair is pushed apart along the collision normal
    let gap = w.positions[1].x - w.positions[0].x;
    assert!(gap > before);
}

#[test]
fn absorb_reports_player_death() {
    let mut s = quiet_settings(CollisionMode::Absorb);
    s.absorb_bias = 0;
    let mut w = World::empty(s);
    w.add_body(V2 { x: 0, y: 0 }, V2 { x: 0, y: 0 }, fx(500_000));
    let p = w.add_body(V2 { x: fx(20), y: 0 }, V2 { x: 0, y: 0 }, fx(80));
    w.player = Some(p);
    let out = w.step();
    assert!(out.player_died);
    assert!(!w.alive[p]);
}

#[test]
fn scenario_presets_pick_collision_policy() {
    let calm = SimSettings::from_scenario(Scenario::CalmBelts);
    assert_eq!(calm.collision_mode, CollisionMode::Absorb);
    assert_eq!(calm.restitution, 0);
    let mayhem = SimSettings::from_scenario(Scenario::BinaryMayhem);
    assert_eq!(mayhem.collision_mode, CollisionMode::Elastic);
    assert_eq!(mayhem.restitution, 58982);
    assert_eq!(mayhem.g, 13107200);
    let nursery = SimSettings::from_scenario(Scenario::StarNursery);
    assert_eq!(nursery.absorb_bias, 3277);
    let arena = SimSettings::from_scenario(Scenario::BHArena);
    assert_eq!(arena.theta, 58982);
    assert_eq!(arena.dt, 197);
}
