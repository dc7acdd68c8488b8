//! Simulation tunables.
//!
//! All continuous quantities are fixed point (scale `SCALE`). `wf` gives
//! the ranges under which every stage of the engine is proved free of
//! overflow; the defaults and all four scenario presets satisfy it.

use vstd::prelude::*;
use crate::fx::SCALE;
use crate::quadtree::{G_LIMIT, THETA_LIMIT};

verus! {

/// How overlapping bodies are resolved.
#[derive(Clone, Copy, PartialEq, Eq, Structural, Debug)]
pub enum CollisionMode {
    Absorb,
    Elastic,
}

/// Which color palette rendering collaborators use.
#[derive(Clone, Copy, PartialEq, Eq, Structural, Debug)]
pub enum ColorPalette {
    Default,
    Colorblind,
}

/// The shape of the initial system a host spawns.
#[derive(Clone, Copy, PartialEq, Eq, Structural, Debug)]
pub enum SystemType {
    SingleStar,
    BinaryStar,
    Cluster,
}

/// A named preset of tunables.
#[derive(Clone, Copy, PartialEq, Eq, Structural, Debug)]
pub enum Scenario {
    CalmBelts,
    BinaryMayhem,
    StarNursery,
    BHArena,
}

/// Cap on the base timestep (0.125 in fixed point).
pub const DT_CAP: i64 = 8192;
/// Cap on the time-scale multiplier (4.0 in fixed point).
pub const TIME_SCALE_CAP: i64 = 262144;
/// Cap on the velocity ceiling (16384 in fixed point, 2^30 raw).
pub const MAX_VEL_CAP: i64 = 1073741824;
/// Cap on softening (4096 in fixed point, 2^28 raw).
pub const SOFT_CAP: i64 = 268435456;

/// The tunable record a host hands the engine each step.
#[derive(Clone, Copy, PartialEq, Eq, Structural, Debug)]
pub struct SimSettings {
    /// Gravitational constant.
    pub g: i64,
    /// Base timestep.
    pub dt: i64,
    /// Fixed softening length (used when `adaptive_softening` is off).
    pub softening: i64,
    /// Velocity ceiling applied after the second kick.
    pub max_vel: i64,
    /// Fixed opening angle (used when `adaptive_theta` is off).
    pub theta: i64,
    /// Gate: when false the integrator stages do nothing.
    pub running: bool,
    /// Whether rendering collaborators draw trails.
    pub trails_enabled: bool,
    /// Trail lifetime in seconds.
    pub trail_lifespan: i64,
    /// Cap on the number of live bodies the host spawns.
    pub spawn_limit: usize,
    /// Restitution coefficient in `[0, 1]` for elastic collisions.
    pub restitution: i64,
    /// Mass bonus for the winner of an absorb merge, in `[0, 1]`.
    pub absorb_bias: i64,
    /// Collision-resolution policy.
    pub collision_mode: CollisionMode,
    /// Deterministic mode: sequential stage order and a seeded random
    /// source in the host.
    pub deterministic: bool,
    /// Whether the camera follows the player.
    pub follow_player: bool,
    /// Time-scale multiplier on the base timestep.
    pub time_scale: i64,
    pub show_help: bool,
    pub show_diagnostics: bool,
    pub color_palette: ColorPalette,
    pub system_type: SystemType,
    pub scenario: Scenario,
    /// Use a per-body opening angle from the local density.
    pub adaptive_theta: bool,
    /// Opening-angle range (min) for adaptive theta.
    pub theta_min: i64,
    /// Opening-angle range (max) for adaptive theta.
    pub theta_max: i64,
    /// Use a per-body softening from the local density.
    pub adaptive_softening: bool,
    /// Softening range (min) for adaptive softening.
    pub softening_min: i64,
    /// Softening range (max) for adaptive softening.
    pub softening_max: i64,
}

impl SimSettings {
    /// The ranges the engine's overflow-freedom proofs assume.
    pub open spec fn wf(self) -> bool {
        &&& 0 <= self.g <= G_LIMIT
        &&& 0 < self.dt <= DT_CAP
        &&& 0 < self.time_scale <= TIME_SCALE_CAP
        &&& 0 <= self.softening <= SOFT_CAP
        &&& 0 < self.max_vel <= MAX_VEL_CAP
        &&& 0 <= self.theta <= THETA_LIMIT
        &&& 0 <= self.theta_min <= self.theta_max <= THETA_LIMIT
        &&& 0 <= self.softening_min <= self.softening_max <= SOFT_CAP
        &&& 0 <= self.restitution <= SCALE
        &&& 0 <= self.absorb_bias <= SCALE
        &&& 0 <= self.trail_lifespan
    }

    /// The baseline tunables as a spec value.
    pub open spec fn standard_spec() -> SimSettings {
        SimSettings {
            g: 7864320,
            dt: 524,
            softening: 262144,
            max_vel: 117964800,
            theta: 39322,
            running: true,
            trails_enabled: true,
            trail_lifespan: 98304,
            spawn_limit: 50000,
            restitution: 52429,
            absorb_bias: 1966,
            collision_mode: CollisionMode::Absorb,
            deterministic: false,
            follow_player: true,
            time_scale: SCALE,
            show_help: true,
            show_diagnostics: false,
            color_palette: ColorPalette::Default,
            system_type: SystemType::SingleStar,
            scenario: Scenario::CalmBelts,
            adaptive_theta: true,
            theta_min: 26214,
            theta_max: 65536,
            adaptive_softening: true,
            softening_min: 131072,
            softening_max: 655360,
        }
    }

    /// The baseline tunables (the CalmBelts values with trails on).
    pub fn standard() -> (r: SimSettings)
        ensures
            r.wf(),
            r == Self::standard_spec(),
            r.g == 7864320 && r.dt == 524 && r.softening == 262144,
            r.max_vel == 117964800 && r.theta == 39322,
            r.running && r.trails_enabled && r.trail_lifespan == 98304,
            r.spawn_limit == 50000,
            r.restitution == 52429 && r.absorb_bias == 1966,
            r.collision_mode == CollisionMode::Absorb,
            !r.deterministic && r.follow_player && r.time_scale == SCALE,
            r.show_help && !r.show_diagnostics,
            r.color_palette == ColorPalette::Default,
            r.system_type == SystemType::SingleStar,
            r.scenario == Scenario::CalmBelts,
            r.adaptive_theta && r.theta_min == 26214 && r.theta_max == 65536,
            r.adaptive_softening && r.softening_min == 131072 && r.softening_max == 655360,
    {
        SimSettings {
            g: 7864320,
            dt: 524,
            softening: 262144,
            max_vel: 117964800,
            theta: 39322,
            running: true,
            trails_enabled: true,
            trail_lifespan: 98304,
            spawn_limit: 50000,
            restitution: 52429,
            absorb_bias: 1966,
            collision_mode: CollisionMode::Absorb,
            deterministic: false,
            follow_player: true,
            time_scale: SCALE,
            show_help: true,
            show_diagnostics: false,
            color_palette: ColorPalette::Default,
            system_type: SystemType::SingleStar,
            scenario: Scenario::CalmBelts,
            adaptive_theta: true,
            theta_min: 26214,
            theta_max: 65536,
            adaptive_softening: true,
            softening_min: 131072,
            softening_max: 655360,
        }
    }

    /// The preset for a scenario. Values are the fixed-point forms of the
    /// scenario tables (gravity, timestep, softening, ceiling, opening
    /// angle, collision policy, restitution, bias, trail life, adaptive
    /// ranges, system type).
    pub fn from_scenario(scenario: Scenario) -> (r: SimSettings)
        ensures
            r.wf(),
            r.scenario == scenario,
            scenario == Scenario::CalmBelts ==> r == Self::calm_belts_spec(),
            scenario == Scenario::BinaryMayhem ==> {
                &&& r.g == 13107200 && r.dt == 328 && r.softening == 524288
                &&& r.max_vel == 163840000 && r.theta == 52429
                &&& r.collision_mode == CollisionMode::Elastic
                &&& r.restitution == 58982 && r.absorb_bias == 0
                &&& r.trail_lifespan == 131072
                &&& r.system_type == SystemType::BinaryStar
                &&& r.theta_min == 39322 && r.theta_max == 78643
                &&& r.softening_min == 327680 && r.softening_max == 983040
            },
            scenario == Scenario::StarNursery ==> {
                &&& r.g == 9830400 && r.dt == 655 && r.softening == 393216
                &&& r.max_vel == 131072000 && r.theta == 45875
                &&& r.collision_mode == CollisionMode::Absorb
                &&& r.restitution == 0 && r.absorb_bias == 3277
                &&& r.trail_lifespan == 117965
                &&& r.system_type == SystemType::Cluster
                &&& r.theta_min == 32768 && r.theta_max == 72090
                &&& r.softening_min == 196608 && r.softening_max == 786432
            },
            scenario == Scenario::BHArena ==> {
                &&& r.g == 19660800 && r.dt == 197 && r.softening == 655360
                &&& r.max_vel == 196608000 && r.theta == 58982
                &&& r.collision_mode == CollisionMode::Absorb
                &&& r.restitution == 0 && r.absorb_bias == 6554
                &&& r.trail_lifespan == 163840
                &&& r.system_type == SystemType::SingleStar
                &&& r.theta_min == 45875 && r.theta_max == 98304
                &&& r.softening_min == 524288 && r.softening_max == 1310720
            },
    {
        let mut s = SimSettings::standard();
        s.scenario = scenario;
        match scenario {
            Scenario::CalmBelts => {
                s.restitution = 0;
            },
            Scenario::BinaryMayhem => {
                s.g = 13107200;
                s.dt = 328;
                s.softening = 524288;
                s.max_vel = 163840000;
                s.theta = 52429;
                s.system_type = SystemType::BinaryStar;
                s.collision_mode = CollisionMode::Elastic;
                s.restitution = 58982;
                s.absorb_bias = 0;
                s.trail_lifespan = 131072;
                s.theta_min = 39322;
                s.theta_max = 78643;
                s.softening_min = 327680;
                s.softening_max = 983040;
            },
            Scenario::StarNursery => {
                s.g = 9830400;
                s.dt = 655;
                s.softening = 393216;
                s.max_vel = 131072000;
                s.theta = 45875;
                s.system_type = SystemType::Cluster;
                s.collision_mode = CollisionMode::Absorb;
                s.restitution = 0;
                s.absorb_bias = 3277;
                s.trail_lifespan = 117965;
                s.theta_min = 32768;
                s.theta_max = 72090;
                s.softening_min = 196608;
                s.softening_max = 786432;
            },
            Scenario::BHArena => {
                s.g = 19660800;
                s.dt = 197;
                s.softening = 655360;
                s.max_vel = 196608000;
                s.theta = 58982;
                s.system_type = SystemType::SingleStar;
                s.collision_mode = CollisionMode::Absorb;
                s.restitution = 0;
                s.absorb_bias = 6554;
                s.trail_lifespan = 163840;
                s.theta_min = 45875;
                s.theta_max = 98304;
                s.softening_min = 524288;
                s.softening_max = 1310720;
            },
        }
        s
    }

    /// The CalmBelts preset (the baseline with zero restitution).
    pub open spec fn calm_belts_spec() -> SimSettings {
        SimSettings {
            g: 7864320,
            dt: 524,
            softening: 262144,
            max_vel: 117964800,
            theta: 39322,
            running: true,
            trails_enabled: true,
            trail_lifespan: 98304,
            spawn_limit: 50000,
            restitution: 0,
            absorb_bias: 1966,
            collision_mode: CollisionMode::Absorb,
            deterministic: false,
            follow_player: true,
            time_scale: SCALE,
            show_help: true,
            show_diagnostics: false,
            color_palette: ColorPalette::Default,
            system_type: SystemType::SingleStar,
            scenario: Scenario::CalmBelts,
            adaptive_theta: true,
            theta_min: 26214,
            theta_max: 65536,
            adaptive_softening: true,
            softening_min: 131072,
            softening_max: 655360,
        }
    }
}


impl Default for SimSettings {
    /// The baseline tunables, same as `standard`.
    fn default() -> (r: SimSettings)
        ensures
            r.wf(),
            r == SimSettings::standard_spec(),
    {
        SimSettings::standard()
    }
}

} // verus!
