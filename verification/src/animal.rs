//! The kinematic core every agent shares: identity, position, velocity,
//! cruising speed and energy.
//!
//! Agents are immutable snapshots: every step returns a new value derived
//! from the old one, so a tick can read the previous tick's population
//! without ever observing a half-updated agent.

use vstd::prelude::*;
use crate::config::{Config, SPEED_LIMIT, SCALE};
use crate::pvector::{PVector, sq, bounded, in_plane, dist2, wrap_offset, norm_x, norm_y};
use crate::quad_tree::{AgentSnap, min2};
use crate::rng::RandomSource;

verus! {

/// One coordinate after one move, wrapped once back onto `[0, m)`.
pub open spec fn wrap_coord(x: int, m: int) -> int {
    if x >= m {
        x - m
    } else if x < 0 {
        x + m
    } else {
        x
    }
}

/// The largest displacement, per axis, that one wrap can bring back onto
/// the plane.
pub open spec fn step_limit(cfg: Config) -> int {
    min2(cfg.width as int, cfg.height as int) - 1
}

/// `v` is a freshly set cruising velocity for speed `speed`: some nonzero
/// direction rescaled to that length, with the squared length within
/// integer rounding of `speed` squared on both sides.
pub open spec fn cruising_velocity(v: PVector, speed: int) -> bool {
    &&& bounded(v, speed)
    &&& sq(v.x as int) + sq(v.y as int) >= sq(speed) - 4 * speed
    &&& (sq(v.x as int) + sq(v.y as int)) * (SCALE as int) <= sq(speed) * (SCALE as int + 2)
    &&& exists|d: PVector|
        !(d.x == 0 && d.y == 0) && v.x == norm_x(d.x as int, d.y as int, speed) && v.y == norm_y(
            d.x as int,
            d.y as int,
            speed,
        )
}

/// The shared kinematic state of one agent.
#[derive(Clone, Copy, PartialEq, Eq, Structural, Debug)]
pub struct Animal {
    /// Unique identity, assigned at creation and never reused.
    pub id: u64,
    pub position: PVector,
    pub velocity: PVector,
    /// Cruising speed: the magnitude steering rescales the velocity to.
    pub speed: i64,
    /// Remaining energy; moving costs one per tick.
    pub energy: u64,
}

impl Animal {
    /// The agent after one move: position advanced by the velocity and
    /// wrapped per axis, one energy paid, everything else unchanged.
    pub open spec fn move_self_spec(self, cfg: Config) -> Animal {
        Animal {
            position: PVector {
                x: wrap_coord(self.position.x + self.velocity.x, cfg.width as int) as i64,
                y: wrap_coord(self.position.y + self.velocity.y, cfg.height as int) as i64,
            },
            energy: (self.energy - 1) as u64,
            ..self
        }
    }

    /// The agent's state is inside the plane and the arithmetic bounds.
    pub open spec fn ok(self, cfg: Config) -> bool {
        &&& in_plane(self.position, cfg.width as int, cfg.height as int)
        &&& 1 <= self.speed <= SPEED_LIMIT
        &&& self.speed <= step_limit(cfg)
        &&& bounded(self.velocity, step_limit(cfg))
    }

    /// A fresh agent: uniformly random position on the plane, a random
    /// direction rescaled to the given cruising speed, full energy.
    pub fn new(cfg: &Config, speed: i64, id: u64, rng: &mut RandomSource) -> (r: Animal)
        requires
            cfg.valid(),
            1 <= speed <= SPEED_LIMIT,
            speed < cfg.width,
            speed < cfg.height,
        ensures
            r.ok(*cfg),
            r.id == id,
            r.speed == speed,
            r.energy == cfg.energy_max,
            cruising_velocity(r.velocity, speed as int),
    {
        let x = rng.below_i64(cfg.width);
        let y = rng.below_i64(cfg.height);
        let dx = rng.below_i64(2 * SCALE + 1) - SCALE;
        let dy = rng.below_i64(2 * SCALE + 1) - SCALE;
        // magnify the drawn direction so the floor rescaling keeps the
        // length within rounding of the cruising speed
        let dir = if dx == 0 && dy == 0 {
            PVector { x: SCALE * SCALE, y: 0 }
        } else {
            PVector { x: dx, y: dy }.mult(SCALE)
        };
        proof {
            assert(sq(dir.x as int) + sq(dir.y as int) >= sq(SCALE as int) && !(dir.x == 0
                && dir.y == 0)) by (nonlinear_arith)
                requires
                    SCALE == 1000i64,
                    (dir.x == SCALE as int * SCALE as int && dir.y == 0) || ((dir.x == dx as int
                        * SCALE as int && dir.y == dy as int * SCALE as int) && !(dx == 0 && dy
                        == 0)),
            ;
        }
        let velocity = dir.with_magnitude(speed);
        proof {
            assert(cruising_velocity(velocity, speed as int)) by {
                let ghost w = dir;
                assert(!(w.x == 0 && w.y == 0) && velocity.x == norm_x(
                    w.x as int,
                    w.y as int,
                    speed as int,
                ) && velocity.y == norm_y(w.x as int, w.y as int, speed as int));
            }
        }
        Animal {
            id,
            position: PVector { x, y },
            velocity,
            speed,
            energy: cfg.energy_max,
        }
    }

    /// The signed nearest displacement from this agent to `other`.
    pub fn offset(&self, other: &Animal, cfg: &Config) -> (r: PVector)
        requires
            cfg.valid(),
            self.ok(*cfg),
            other.ok(*cfg),
        ensures
            r.x == wrap_offset(self.position.x as int, other.position.x as int, cfg.width as int),
            r.y == wrap_offset(self.position.y as int, other.position.y as int, cfg.height as int),
    {
        self.position.offset(&other.position, cfg.width, cfg.height)
    }

    /// `other` is strictly within `radius` of this agent, by toroidal
    /// distance.
    pub fn is_within(&self, other: &Animal, radius: i64, cfg: &Config) -> (r: bool)
        requires
            cfg.valid(),
            self.ok(*cfg),
            other.ok(*cfg),
            0 <= radius <= crate::config::PLANE_LIMIT,
        ensures
            r == (dist2(self.position, other.position, cfg.width as int, cfg.height as int) < sq(
                radius as int,
            )),
            r == (crate::pvector::sqrt_floor(
                dist2(self.position, other.position, cfg.width as int, cfg.height as int),
            ) < radius),
    {
        let d2 = self.position.dist2_to(&other.position, cfg.width, cfg.height);
        proof {
            assert(0 <= radius * radius <= 4_000_000_000_000i64 && radius * radius == sq(
                radius as int,
            )) by (nonlinear_arith)
                requires
                    0 <= radius <= 2_000_000i64,
            ;
            crate::pvector::lemma_sqrt_exists(d2 as int);
            crate::pvector::lemma_sqrt_lt(
                d2 as int,
                crate::pvector::sqrt_floor(d2 as int),
                radius as int,
            );
        }
        d2 < radius * radius
    }

    /// Apply the velocity to the position, wrapping per axis, and pay one
    /// energy for the move.
    pub fn move_self(&self, cfg: &Config) -> (r: Animal)
        requires
            cfg.valid(),
            self.ok(*cfg),
            self.energy >= 1,
        ensures
            r.ok(*cfg),
            r.id == self.id,
            r.velocity == self.velocity,
            r.speed == self.speed,
            r.energy == self.energy - 1,
            r.position.x == wrap_coord(self.position.x + self.velocity.x, cfg.width as int),
            r.position.y == wrap_coord(self.position.y + self.velocity.y, cfg.height as int),
            r == self.move_self_spec(*cfg),
    {
        let nx = self.position.x + self.velocity.x;
        let ny = self.position.y + self.velocity.y;
        let wx = if nx >= cfg.width {
            nx - cfg.width
        } else if nx < 0 {
            nx + cfg.width
        } else {
            nx
        };
        let wy = if ny >= cfg.height {
            ny - cfg.height
        } else if ny < 0 {
            ny + cfg.height
        } else {
            ny
        };
        Animal {
            id: self.id,
            position: PVector { x: wx, y: wy },
            velocity: self.velocity,
            speed: self.speed,
            energy: self.energy - 1,
        }
    }

    /// The current velocity.
    pub fn as_velocity(&self) -> (r: PVector)
        ensures
            r == self.velocity,
    {
        self.velocity
    }

    /// The same agent with the given velocity.
    pub fn apply_velocity(&self, v: &PVector, cfg: &Config) -> (r: Animal)
        requires
            cfg.valid(),
            bounded(*v, step_limit(*cfg)),
        ensures
            r == (Animal { velocity: *v, ..*self }),
    {
        Animal { velocity: *v, ..*self }
    }

    /// The current position.
    pub fn position(&self) -> (r: PVector)
        ensures
            r == self.position,
    {
        self.position
    }

    /// Two agents are the same individual: same identity, whatever the
    /// state.
    pub fn is_same(&self, other: &Animal) -> (r: bool)
        ensures
            r == (self.id == other.id),
    {
        self.id == other.id
    }

    /// The identity.
    pub fn id(&self) -> (r: u64)
        ensures
            r == self.id,
    {
        self.id
    }

    /// The snapshot of this agent that a spatial index stores.
    pub fn as_snap(&self) -> (r: AgentSnap)
        ensures
            r == snap_of(*self),
    {
        AgentSnap { id: self.id, position: self.position, velocity: self.velocity }
    }

    /// Drop every agent whose energy is exhausted; survivors keep their
    /// order and their exact state.
    pub fn delete_dead(animals: Vec<Animal>) -> (r: Vec<Animal>)
        ensures
            r@ == animals@.filter(|a: Animal| a.energy > 0),
    {
        let ghost pred = |a: Animal| a.energy > 0;
        let mut kept: Vec<Animal> = Vec::new();
        proof {
            assert(animals@.take(0) =~= Seq::<Animal>::empty());
            crate::seq_lemmas::lemma_filter_none(animals@.take(0), pred);
        }
        let n = animals.len();
        for i in 0..n
            invariant
                n == animals@.len(),
                kept@ == animals@.take(i as int).filter(pred),
                pred == (|a: Animal| a.energy > 0),
        {
            proof {
                crate::seq_lemmas::lemma_filter_push(animals@.take(i as int), animals@[i as int], pred);
                assert(animals@.take(i + 1 as int) =~= animals@.take(i as int).push(
                    animals@[i as int],
                ));
            }
            if animals[i].energy > 0 {
                kept.push(animals[i]);
            }
        }
        proof {
            assert(animals@.take(n as int) =~= animals@);
        }
        kept
    }
}

/// The index snapshot of an agent.
pub open spec fn snap_of(a: Animal) -> AgentSnap {
    AgentSnap { id: a.id, position: a.position, velocity: a.velocity }
}

} // verus!
