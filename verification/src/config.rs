//! Simulation configuration: the plane, the radii, the energy budget and the
//! population targets.
//!
//! All geometry is fixed-point: one plane unit is `SCALE` coordinate steps, so
//! the standard 640 x 480 plane is 640_000 x 480_000 steps wide. Every length
//! (radius, speed, mutation amplitude for lengths) is given in the same steps,
//! which keeps all arithmetic exact and in `i64` range.

use vstd::prelude::*;

verus! {

/// Coordinate steps per plane unit.
pub const SCALE: i64 = 1000;

/// Largest plane side, in steps, that the arithmetic bounds admit.
pub const PLANE_LIMIT: i64 = 2_000_000;

/// Largest steering weight cap that the arithmetic bounds admit.
pub const WEIGHT_LIMIT: i64 = 400_000;

/// Largest cruising speed, in steps per tick, that the arithmetic bounds admit.
pub const SPEED_LIMIT: i64 = 1_000_000;

#[derive(Clone, Copy, PartialEq, Eq, Structural, Debug)]
pub struct Config {
    /// Plane width in steps; positions wrap modulo this.
    pub width: i64,
    /// Plane height in steps; positions wrap modulo this.
    pub height: i64,
    /// A spatial-index region at least this wide is subdivided further.
    pub min_cell_width: i64,
    /// Predators chase prey found within this radius.
    pub chase_radius: i64,
    /// Predators steer away from other predators within this radius.
    pub separate_radius: i64,
    /// Predators align their velocity with predators within this radius.
    pub align_radius: i64,
    /// Predators steer toward the centroid of predators within this radius.
    pub cohension_radius: i64,
    /// Prey run away from predators found within this radius.
    pub runaway_radius: i64,
    /// A predator eats prey within this radius.
    pub eaten_radius: i64,
    /// Energy every agent starts with; also the odds (one in `energy_max`)
    /// of a descendant per agent per tick.
    pub energy_max: u64,
    /// Energy a predator gains by eating.
    pub eat_energy: u64,
    /// A child's weight differs from its parent's by at most this much.
    pub mutate_abs: i64,
    /// Upper bound of the chase weight.
    pub chase_max: i64,
    /// Upper bound of the separation weight.
    pub separate_max: i64,
    /// Upper bound of the alignment weight.
    pub align_max: i64,
    /// Upper bound of the cohesion weight.
    pub cohension_max: i64,
    /// Predator cruising speed in steps per tick.
    pub cat_speed: i64,
    /// Prey cruising speed in steps per tick.
    pub rat_speed: i64,
    /// Predators in the first generation.
    pub cat_count: usize,
    /// Prey spawned at the start of every generation.
    pub rat_count: usize,
    /// Predators produced by selection for the next generation.
    pub breed_count: usize,
    /// Safety bound on the length of one generation.
    pub max_ticks: usize,
}

impl Config {
    /// The bounds under which every arithmetic step of the simulation stays
    /// inside `i64`/`u64` range.
    pub open spec fn valid(self) -> bool {
        &&& 0 < self.width <= PLANE_LIMIT
        &&& 0 < self.height <= PLANE_LIMIT
        &&& 2 <= self.min_cell_width
        &&& 0 <= self.chase_radius <= PLANE_LIMIT
        &&& 0 <= self.separate_radius <= PLANE_LIMIT
        &&& 0 <= self.align_radius <= PLANE_LIMIT
        &&& 0 <= self.cohension_radius <= PLANE_LIMIT
        &&& 0 <= self.runaway_radius <= PLANE_LIMIT
        &&& 0 <= self.eaten_radius <= PLANE_LIMIT
        &&& 1 <= self.energy_max
        &&& 0 <= self.mutate_abs <= WEIGHT_LIMIT
        &&& 0 < self.chase_max <= WEIGHT_LIMIT
        &&& 0 < self.separate_max <= WEIGHT_LIMIT
        &&& 0 < self.align_max <= WEIGHT_LIMIT
        &&& 0 < self.cohension_max <= WEIGHT_LIMIT
        &&& 0 < self.cat_speed <= SPEED_LIMIT
        &&& 0 < self.rat_speed <= SPEED_LIMIT
        &&& self.cat_speed < self.width
        &&& self.cat_speed < self.height
        &&& self.rat_speed < self.width
        &&& self.rat_speed < self.height
        &&& self.cat_count <= 1_000_000
        &&& self.rat_count <= 1_000_000
        &&& self.breed_count <= 1_000_000
    }

    /// The standard configuration: a 640 x 480 plane,
    /// radii of a few units, weights up to 480, energy budget 1000.
    pub fn standard() -> (c: Config)
        ensures
            c.valid(),
            c.width == 640 * SCALE,
            c.height == 480 * SCALE,
            c.min_cell_width == 10 * SCALE,
            c.chase_radius == 10 * SCALE,
            c.separate_radius == 5 * SCALE,
            c.align_radius == 10 * SCALE,
            c.cohension_radius == 15 * SCALE,
            c.runaway_radius == 10 * SCALE,
            c.eaten_radius == 1 * SCALE,
            c.energy_max == 1000,
            c.eat_energy == 300,
            c.mutate_abs == 10,
            c.chase_max == 480,
            c.separate_max == 480,
            c.align_max == 480,
            c.cohension_max == 480,
            c.cat_speed == 1 * SCALE,
            c.rat_speed == SCALE / 2,
            c.cat_count == 10,
            c.rat_count == 200,
            c.breed_count == 20,
            c.max_ticks == 100000,
    {
        Config {
            width: 640_000,
            height: 480_000,
            min_cell_width: 10_000,
            chase_radius: 10_000,
            separate_radius: 5_000,
            align_radius: 10_000,
            cohension_radius: 15_000,
            runaway_radius: 10_000,
            eaten_radius: 1_000,
            energy_max: 1000,
            eat_energy: 300,
            mutate_abs: 10,
            chase_max: 480,
            separate_max: 480,
            align_max: 480,
            cohension_max: 480,
            cat_speed: 1_000,
            rat_speed: 500,
            cat_count: 10,
            rat_count: 200,
            breed_count: 20,
            max_ticks: 100000,
        }
    }
}

} // verus!
