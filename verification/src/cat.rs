//! The predator: chases prey, flocks with its own kind, eats, and carries
//! the four evolvable steering weights and the eaten-counter the genetic
//! algorithm selects on.

use vstd::prelude::*;
use crate::config::{Config, SCALE, PLANE_LIMIT, WEIGHT_LIMIT};
use crate::pvector::{PVector, abs_val, sq, bounded, norm_x};
use crate::quad_tree::{QuadTree, AgentSnap, hit};
use crate::animal::{Animal, wrap_coord, step_limit, snap_of};
use crate::rng::{RandomSource, IdGen};
use crate::steering::{
    near_seq, dir_x, dir_y, vel_dir_x, vel_dir_y, tree_ready, collect_near_pvectors,
    calculate_direction, add_velocity,
};

verus! {

/// A predator.
#[derive(Clone, Copy, PartialEq, Eq, Structural, Debug)]
pub struct Cat {
    pub animal: Animal,
    /// Pull toward nearby prey.
    pub chase_weight: i64,
    /// Push away from nearby predators.
    pub separate_weight: i64,
    /// Pull toward the heading of nearby predators.
    pub align_weight: i64,
    /// Pull toward the centroid of nearby predators.
    pub cohension_weight: i64,
    /// Prey eaten this generation; the fitness the selection sorts by.
    pub ate: u32,
}

/// The eaten-counter after one meal, capped at the machine bound.
pub open spec fn bump_ate(a: u32) -> u32 {
    if a < u32::MAX {
        (a + 1) as u32
    } else {
        a
    }
}

/// Energy after one meal, capped at the machine bound.
pub open spec fn fed_energy(e: u64, cfg: Config) -> u64 {
    if e + cfg.eat_energy > u64::MAX {
        u64::MAX
    } else {
        (e + cfg.eat_energy) as u64
    }
}

impl Cat {
    /// The predator's state is inside the plane, at the configured cruising
    /// speed, with each weight inside its configured cap.
    pub open spec fn ok(self, cfg: Config) -> bool {
        &&& self.animal.ok(cfg)
        &&& self.animal.speed == cfg.cat_speed
        &&& 0 <= self.chase_weight <= cfg.chase_max
        &&& 0 <= self.separate_weight <= cfg.separate_max
        &&& 0 <= self.align_weight <= cfg.align_max
        &&& 0 <= self.cohension_weight <= cfg.cohension_max
    }

    /// A fresh predator: random position and heading, each weight uniform
    /// below its cap, full energy, nothing eaten, a fresh identity.
    pub fn new(cfg: &Config, rng: &mut RandomSource, ids: &mut IdGen) -> (r: Cat)
        requires
            cfg.valid(),
            old(ids).next < u64::MAX,
        ensures
            r.ok(*cfg),
            r.animal.id == old(ids).next,
            final(ids).next == old(ids).next + 1,
            r.animal.energy == cfg.energy_max,
            r.ate == 0,
            crate::animal::cruising_velocity(r.animal.velocity, cfg.cat_speed as int),
    {
        let id = ids.fresh();
        let animal = Animal::new(cfg, cfg.cat_speed, id, rng);
        Cat {
            animal,
            chase_weight: rng.below_i64(cfg.chase_max),
            separate_weight: rng.below_i64(cfg.separate_max),
            align_weight: rng.below_i64(cfg.align_max),
            cohension_weight: rng.below_i64(cfg.cohension_max),
            ate: 0,
        }
    }

    /// Apply the velocity to the position, wrapping per axis, for one
    /// energy.
    pub fn move_self(&self, cfg: &Config) -> (r: Cat)
        requires
            cfg.valid(),
            self.animal.ok(*cfg),
            self.animal.energy >= 1,
        ensures
            r == (Cat { animal: self.animal.move_self_spec(*cfg), ..*self }),
            r.animal.ok(*cfg),
    {
        Cat { animal: self.animal.move_self(cfg), ..*self }
    }

    /// The current velocity.
    pub fn as_velocity(&self) -> (r: PVector)
        ensures
            r == self.animal.velocity,
    {
        self.animal.velocity
    }

    /// The same predator with the given velocity.
    pub fn apply_velocity(&self, v: &PVector, cfg: &Config) -> (r: Cat)
        requires
            cfg.valid(),
            bounded(*v, step_limit(*cfg)),
        ensures
            r == (Cat { animal: (Animal { velocity: *v, ..self.animal }), ..*self }),
    {
        Cat { animal: self.animal.apply_velocity(v, cfg), ..*self }
    }

    /// `other` is strictly within `radius`, by toroidal distance.
    pub fn is_within(&self, other: &Animal, radius: i64, cfg: &Config) -> (r: bool)
        requires
            cfg.valid(),
            self.animal.ok(*cfg),
            other.ok(*cfg),
            0 <= radius <= PLANE_LIMIT,
        ensures
            r == (crate::pvector::dist2(
                self.animal.position,
                other.position,
                cfg.width as int,
                cfg.height as int,
            ) < sq(radius as int)),
    {
        self.animal.is_within(other, radius, cfg)
    }

    /// The signed nearest displacement toward `other`.
    pub fn offset(&self, other: &Animal, cfg: &Config) -> (r: PVector)
        requires
            cfg.valid(),
            self.animal.ok(*cfg),
            other.ok(*cfg),
        ensures
            r.x == crate::pvector::wrap_offset(
                self.animal.position.x as int,
                other.position.x as int,
                cfg.width as int,
            ),
            r.y == crate::pvector::wrap_offset(
                self.animal.position.y as int,
                other.position.y as int,
                cfg.height as int,
            ),
    {
        self.animal.offset(other, cfg)
    }

    /// The current position.
    pub fn position(&self) -> (r: PVector)
        ensures
            r == self.animal.position,
    {
        self.animal.position
    }

    /// Same individual, by identity.
    pub fn is_same(&self, other: &Cat) -> (r: bool)
        ensures
            r == (self.animal.id == other.animal.id),
    {
        self.animal.id == other.animal.id
    }

    /// The identity.
    pub fn id(&self) -> (r: u64)
        ensures
            r == self.animal.id,
    {
        self.animal.id
    }

    /// The index snapshot of this predator.
    pub fn as_snap(&self) -> (r: AgentSnap)
        ensures
            r == snap_of(self.animal),
    {
        self.animal.as_snap()
    }

    /// The chase contribution: the unit direction toward the average
    /// offset of prey within the chase radius, scaled by the chase weight;
    /// exactly zero when no prey is near.
    pub fn chase_vector(&self, rats_tree: &QuadTree, cfg: &Config) -> (r: PVector)
        requires
            cfg.valid(),
            self.ok(*cfg),
            tree_ready(*rats_tree, *cfg),
        ensures
            r.x == chase_vec_x(*self, *rats_tree, *cfg),
            r.y == chase_vec_y(*self, *rats_tree, *cfg),
            bounded(r, 400_000_000),
    {
        let near = collect_near_pvectors(
            rats_tree,
            self.animal.id,
            &self.animal.position,
            cfg.chase_radius,
            cfg,
        );
        if near.len() == 0 {
            PVector::zero()
        } else {
            let d = calculate_direction(&self.animal.position, &near, cfg);
            let r = d.mult(self.chase_weight);
            proof {
                lemma_weighted_bound(d.x as int, d.y as int, self.chase_weight as int);
            }
            r
        }
    }

    /// The separation contribution: the unit direction of the average
    /// offset toward predators within the separation radius, scaled by the
    /// negated separation weight (away from them); zero when none is near.
    pub fn separate_same(&self, cats_tree: &QuadTree, cfg: &Config) -> (r: PVector)
        requires
            cfg.valid(),
            self.ok(*cfg),
            tree_ready(*cats_tree, *cfg),
        ensures
            r.x == separate_vec_x(*self, *cats_tree, *cfg),
            r.y == separate_vec_y(*self, *cats_tree, *cfg),
            bounded(r, 400_000_000),
    {
        let near = collect_near_pvectors(
            cats_tree,
            self.animal.id,
            &self.animal.position,
            cfg.separate_radius,
            cfg,
        );
        if near.len() == 0 {
            PVector::zero()
        } else {
            let d = calculate_direction(&self.animal.position, &near, cfg);
            let r = d.mult(-self.separate_weight);
            proof {
                lemma_weighted_bound(d.x as int, d.y as int, -self.separate_weight as int);
            }
            r
        }
    }

    /// The alignment contribution: the unit direction of the average
    /// velocity of predators within the alignment radius, scaled by the
    /// alignment weight; zero when none is near.
    pub fn align(&self, cats_tree: &QuadTree, cfg: &Config) -> (r: PVector)
        requires
            cfg.valid(),
            self.ok(*cfg),
            tree_ready(*cats_tree, *cfg),
        ensures
            r.x == align_vec_x(*self, *cats_tree, *cfg),
            r.y == align_vec_y(*self, *cats_tree, *cfg),
            bounded(r, 400_000_000),
    {
        let near = collect_near_pvectors(
            cats_tree,
            self.animal.id,
            &self.animal.position,
            cfg.align_radius,
            cfg,
        );
        if near.len() == 0 {
            PVector::zero()
        } else {
            let d = add_velocity(&near, cfg);
            let r = d.mult(self.align_weight);
            proof {
                lemma_weighted_bound(d.x as int, d.y as int, self.align_weight as int);
            }
            r
        }
    }

    /// The cohesion contribution: the unit direction toward the centroid of
    /// predators within the cohesion radius, scaled by the cohesion weight;
    /// zero when none is near.
    pub fn cohension(&self, cats_tree: &QuadTree, cfg: &Config) -> (r: PVector)
        requires
            cfg.valid(),
            self.ok(*cfg),
            tree_ready(*cats_tree, *cfg),
        ensures
            r.x == cohension_vec_x(*self, *cats_tree, *cfg),
            r.y == cohension_vec_y(*self, *cats_tree, *cfg),
            bounded(r, 400_000_000),
    {
        let near = collect_near_pvectors(
            cats_tree,
            self.animal.id,
            &self.animal.position,
            cfg.cohension_radius,
            cfg,
        );
        if near.len() == 0 {
            PVector::zero()
        } else {
            let d = calculate_direction(&self.animal.position, &near, cfg);
            let r = d.mult(self.cohension_weight);
            proof {
                lemma_weighted_bound(d.x as int, d.y as int, self.cohension_weight as int);
            }
            r
        }
    }

    /// Eat if any prey is within the eating radius: gain the configured
    /// energy (capped only at the machine bound) and count one meal;
    /// otherwise nothing changes.
    pub fn eat(&self, rats_tree: &QuadTree, cfg: &Config) -> (r: Cat)
        requires
            cfg.valid(),
            self.animal.ok(*cfg),
            tree_ready(*rats_tree, *cfg),
        ensures
            r == (Cat {
                animal: (Animal {
                    energy: if can_eat(*self, *rats_tree, *cfg) {
                        fed_energy(self.animal.energy, *cfg)
                    } else {
                        self.animal.energy
                    },
                    ..self.animal
                }),
                ate: if can_eat(*self, *rats_tree, *cfg) {
                    bump_ate(self.ate)
                } else {
                    self.ate
                },
                ..*self
            }),
    {
        let found = rats_tree.search(&self.animal.position, cfg.eaten_radius, cfg.width, cfg.height);
        if found.len() > 0 {
            let energy = if self.animal.energy <= u64::MAX - cfg.eat_energy {
                self.animal.energy + cfg.eat_energy
            } else {
                u64::MAX
            };
            let ate = if self.ate < u32::MAX {
                self.ate + 1
            } else {
                self.ate
            };
            Cat { animal: Animal { energy, ..self.animal }, ate, ..*self }
        } else {
            Cat { ..*self }
        }
    }

    /// One steering step: sum the own velocity with the four contributions,
    /// rescale to cruising speed (or keep the velocity unchanged on a
    /// zero sum), eat, then move.
    pub fn chase(&self, cats_tree: &QuadTree, rats_tree: &QuadTree, cfg: &Config) -> (r: Cat)
        requires
            cfg.valid(),
            self.ok(*cfg),
            tree_ready(*cats_tree, *cfg),
            tree_ready(*rats_tree, *cfg),
            self.animal.energy >= 1,
        ensures
            chase_rel(*self, r, *cats_tree, *rats_tree, *cfg),
            r.ok(*cfg),
    {
        let cv = self.chase_vector(rats_tree, cfg);
        let sv = self.separate_same(cats_tree, cfg);
        let av = self.align(cats_tree, cfg);
        let hv = self.cohension(cats_tree, cfg);
        let combined = self.animal.velocity.add(&cv).add(&sv).add(&av).add(&hv);
        let next_velocity = if combined.x == 0 && combined.y == 0 {
            self.animal.velocity
        } else {
            combined.with_magnitude(self.animal.speed)
        };
        self.apply_velocity(&next_velocity, cfg).eat(rats_tree, cfg).move_self(cfg)
    }
}

/// A unit direction scaled by a capped weight stays within the combined
/// steering bound.
proof fn lemma_weighted_bound(x: int, y: int, s: int)
    requires
        abs_val(x) <= SCALE as int,
        abs_val(y) <= SCALE as int,
        abs_val(s) <= WEIGHT_LIMIT as int,
    ensures
        abs_val(x * s) <= 400_000_000,
        abs_val(y * s) <= 400_000_000,
{
    assert(abs_val(x * s) <= 1000 * 400_000 && abs_val(y * s) <= 1000 * 400_000)
        by (nonlinear_arith)
        requires
            abs_val(x) <= 1000,
            abs_val(y) <= 1000,
            abs_val(s) <= 400_000,
    ;
}

/// x component of the chase contribution of `c` against the prey index.
pub open spec fn chase_vec_x(c: Cat, rt: QuadTree, cfg: Config) -> int {
    let near = near_seq(
        rt,
        c.animal.id,
        c.animal.position,
        cfg.chase_radius as int,
        cfg.width as int,
        cfg.height as int,
    );
    if near.len() == 0 {
        0
    } else {
        dir_x(c.animal.position, near, cfg.width as int, cfg.height as int) * c.chase_weight
    }
}

/// y component of the chase contribution.
pub open spec fn chase_vec_y(c: Cat, rt: QuadTree, cfg: Config) -> int {
    let near = near_seq(
        rt,
        c.animal.id,
        c.animal.position,
        cfg.chase_radius as int,
        cfg.width as int,
        cfg.height as int,
    );
    if near.len() == 0 {
        0
    } else {
        dir_y(c.animal.position, near, cfg.width as int, cfg.height as int) * c.chase_weight
    }
}

/// x component of the separation contribution of `c` against the predator
/// index.
pub open spec fn separate_vec_x(c: Cat, ct: QuadTree, cfg: Config) -> int {
    let near = near_seq(
        ct,
        c.animal.id,
        c.animal.position,
        cfg.separate_radius as int,
        cfg.width as int,
        cfg.height as int,
    );
    if near.len() == 0 {
        0
    } else {
        dir_x(c.animal.position, near, cfg.width as int, cfg.height as int) * (-c.separate_weight)
    }
}

/// y component of the separation contribution.
pub open spec fn separate_vec_y(c: Cat, ct: QuadTree, cfg: Config) -> int {
    let near = near_seq(
        ct,
        c.animal.id,
        c.animal.position,
        cfg.separate_radius as int,
        cfg.width as int,
        cfg.height as int,
    );
    if near.len() == 0 {
        0
    } else {
        dir_y(c.animal.position, near, cfg.width as int, cfg.height as int) * (-c.separate_weight)
    }
}

/// x component of the alignment contribution of `c`.
pub open spec fn align_vec_x(c: Cat, ct: QuadTree, cfg: Config) -> int {
    let near = near_seq(
        ct,
        c.animal.id,
        c.animal.position,
        cfg.align_radius as int,
        cfg.width as int,
        cfg.height as int,
    );
    if near.len() == 0 {
        0
    } else {
        vel_dir_x(near) * c.align_weight
    }
}

/// y component of the alignment contribution.
pub open spec fn align_vec_y(c: Cat, ct: QuadTree, cfg: Config) -> int {
    let near = near_seq(
        ct,
        c.animal.id,
        c.animal.position,
        cfg.align_radius as int,
        cfg.width as int,
        cfg.height as int,
    );
    if near.len() == 0 {
        0
    } else {
        vel_dir_y(near) * c.align_weight
    }
}

/// x component of the cohesion contribution of `c`.
pub open spec fn cohension_vec_x(c: Cat, ct: QuadTree, cfg: Config) -> int {
    let near = near_seq(
        ct,
        c.animal.id,
        c.animal.position,
        cfg.cohension_radius as int,
        cfg.width as int,
        cfg.height as int,
    );
    if near.len() == 0 {
        0
    } else {
        dir_x(c.animal.position, near, cfg.width as int, cfg.height as int) * c.cohension_weight
    }
}

/// y component of the cohesion contribution.
pub open spec fn cohension_vec_y(c: Cat, ct: QuadTree, cfg: Config) -> int {
    let near = near_seq(
        ct,
        c.animal.id,
        c.animal.position,
        cfg.cohension_radius as int,
        cfg.width as int,
        cfg.height as int,
    );
    if near.len() == 0 {
        0
    } else {
        dir_y(c.animal.position, near, cfg.width as int, cfg.height as int) * c.cohension_weight
    }
}

/// x component of the summed steering input: own velocity plus all four
/// contributions.
pub open spec fn combined_x(c: Cat, ct: QuadTree, rt: QuadTree, cfg: Config) -> int {
    c.animal.velocity.x + chase_vec_x(c, rt, cfg) + separate_vec_x(c, ct, cfg) + align_vec_x(
        c,
        ct,
        cfg,
    ) + cohension_vec_x(c, ct, cfg)
}

/// y component of the summed steering input.
pub open spec fn combined_y(c: Cat, ct: QuadTree, rt: QuadTree, cfg: Config) -> int {
    c.animal.velocity.y + chase_vec_y(c, rt, cfg) + separate_vec_y(c, ct, cfg) + align_vec_y(
        c,
        ct,
        cfg,
    ) + cohension_vec_y(c, ct, cfg)
}

/// x component of the next velocity: the summed input rescaled to cruising
/// speed, or the old velocity when the sum is exactly zero.
pub open spec fn next_vel_x(c: Cat, ct: QuadTree, rt: QuadTree, cfg: Config) -> int {
    if combined_x(c, ct, rt, cfg) == 0 && combined_y(c, ct, rt, cfg) == 0 {
        c.animal.velocity.x as int
    } else {
        norm_x(combined_x(c, ct, rt, cfg), combined_y(c, ct, rt, cfg), c.animal.speed as int)
    }
}

/// y component of the next velocity.
pub open spec fn next_vel_y(c: Cat, ct: QuadTree, rt: QuadTree, cfg: Config) -> int {
    if combined_x(c, ct, rt, cfg) == 0 && combined_y(c, ct, rt, cfg) == 0 {
        c.animal.velocity.y as int
    } else {
        norm_x(combined_y(c, ct, rt, cfg), combined_x(c, ct, rt, cfg), c.animal.speed as int)
    }
}

/// Some prey stands within the eating radius of `c`.
pub open spec fn can_eat(c: Cat, rt: QuadTree, cfg: Config) -> bool {
    rt.members().filter(
        |m: AgentSnap| hit(m, c.animal.position, cfg.eaten_radius as int, cfg.width as int, cfg.height as int),
    ).len() > 0
}

/// How one full predator step relates the new state to the old one: the
/// steering equations for the velocity, the wrapped move for the position,
/// the meal for energy and the eaten-counter, everything else unchanged.
pub open spec fn chase_rel(pre: Cat, post: Cat, ct: QuadTree, rt: QuadTree, cfg: Config) -> bool {
    &&& post.chase_weight == pre.chase_weight
    &&& post.separate_weight == pre.separate_weight
    &&& post.align_weight == pre.align_weight
    &&& post.cohension_weight == pre.cohension_weight
    &&& post.animal.id == pre.animal.id
    &&& post.animal.speed == pre.animal.speed
    &&& post.animal.velocity.x == next_vel_x(pre, ct, rt, cfg)
    &&& post.animal.velocity.y == next_vel_y(pre, ct, rt, cfg)
    &&& post.animal.position.x == wrap_coord(
        pre.animal.position.x + next_vel_x(pre, ct, rt, cfg),
        cfg.width as int,
    )
    &&& post.animal.position.y == wrap_coord(
        pre.animal.position.y + next_vel_y(pre, ct, rt, cfg),
        cfg.height as int,
    )
    &&& post.ate == if can_eat(pre, rt, cfg) {
        bump_ate(pre.ate)
    } else {
        pre.ate
    }
    &&& post.animal.energy == (if can_eat(pre, rt, cfg) {
        fed_energy(pre.animal.energy, cfg)
    } else {
        pre.animal.energy
    }) - 1
}

/// If no neighbor is found for any contribution, every contribution is
/// exactly zero; the summed input is then the own velocity, and an agent
/// whose summed input is zero keeps its velocity unchanged.
pub proof fn lemma_steering_zero_case(c: Cat, ct: QuadTree, rt: QuadTree, cfg: Config)
    requires
        near_seq(
            rt,
            c.animal.id,
            c.animal.position,
            cfg.chase_radius as int,
            cfg.width as int,
            cfg.height as int,
        ).len() == 0,
        near_seq(
            ct,
            c.animal.id,
            c.animal.position,
            cfg.separate_radius as int,
            cfg.width as int,
            cfg.height as int,
        ).len() == 0,
        near_seq(
            ct,
            c.animal.id,
            c.animal.position,
            cfg.align_radius as int,
            cfg.width as int,
            cfg.height as int,
        ).len() == 0,
        near_seq(
            ct,
            c.animal.id,
            c.animal.position,
            cfg.cohension_radius as int,
            cfg.width as int,
            cfg.height as int,
        ).len() == 0,
    ensures
        chase_vec_x(c, rt, cfg) == 0 && chase_vec_y(c, rt, cfg) == 0,
        separate_vec_x(c, ct, cfg) == 0 && separate_vec_y(c, ct, cfg) == 0,
        align_vec_x(c, ct, cfg) == 0 && align_vec_y(c, ct, cfg) == 0,
        cohension_vec_x(c, ct, cfg) == 0 && cohension_vec_y(c, ct, cfg) == 0,
        combined_x(c, ct, rt, cfg) == c.animal.velocity.x,
        combined_y(c, ct, rt, cfg) == c.animal.velocity.y,
        c.animal.velocity.x == 0 && c.animal.velocity.y == 0 ==> next_vel_x(c, ct, rt, cfg)
            == c.animal.velocity.x && next_vel_y(c, ct, rt, cfg) == c.animal.velocity.y,
{
}

/// Whenever the summed steering input is exactly zero, the velocity is left
/// unchanged: normalization of a zero vector is never attempted.
pub proof fn lemma_zero_sum_keeps_velocity(c: Cat, ct: QuadTree, rt: QuadTree, cfg: Config)
    requires
        combined_x(c, ct, rt, cfg) == 0,
        combined_y(c, ct, rt, cfg) == 0,
    ensures
        next_vel_x(c, ct, rt, cfg) == c.animal.velocity.x,
        next_vel_y(c, ct, rt, cfg) == c.animal.velocity.y,
{
}

/// `c` lies in the band the mutation of a parent weight `p` can reach:
/// `[max(0, p - amp), min(vmax, p + amp)]`.
pub open spec fn weight_mutated(c: int, p: int, vmax: int, amp: int) -> bool {
    &&& (if p - amp > 0 {
        p - amp
    } else {
        0
    }) <= c
    &&& c <= (if p + amp < vmax {
        p + amp
    } else {
        vmax
    })
}

/// `child` is a valid descendant of `parent`: a fresh full-energy predator
/// with nothing eaten whose four weights lie within the mutation band of
/// the parent's.
pub open spec fn is_cat_child(child: Cat, parent: Cat, cfg: Config) -> bool {
    &&& child.ok(cfg)
    &&& child.ate == 0
    &&& child.animal.energy == cfg.energy_max
    &&& weight_mutated(
        child.chase_weight as int,
        parent.chase_weight as int,
        cfg.chase_max as int,
        cfg.mutate_abs as int,
    )
    &&& weight_mutated(
        child.separate_weight as int,
        parent.separate_weight as int,
        cfg.separate_max as int,
        cfg.mutate_abs as int,
    )
    &&& weight_mutated(
        child.align_weight as int,
        parent.align_weight as int,
        cfg.align_max as int,
        cfg.mutate_abs as int,
    )
    &&& weight_mutated(
        child.cohension_weight as int,
        parent.cohension_weight as int,
        cfg.cohension_max as int,
        cfg.mutate_abs as int,
    )
}

/// No two predators in `s` share an identity.
pub open spec fn cat_ids_distinct(s: Seq<Cat>) -> bool {
    forall|i: int, j: int|
        0 <= i < j < s.len() ==> (#[trigger] s[i]).animal.id != (#[trigger] s[j]).animal.id
}

/// Every identity in `s` is below `b`: none was handed out at or after it.
pub open spec fn cat_ids_below(s: Seq<Cat>, b: int) -> bool {
    forall|i: int| 0 <= i < s.len() ==> (#[trigger] s[i]).animal.id < b
}

/// `out` is one lifecycle pass over `inp`: agents with exhausted energy are
/// dropped; every surviving agent appears verbatim, possibly preceded by
/// one freshly bred descendant; order is kept.
pub open spec fn cat_brood(inp: Seq<Cat>, out: Seq<Cat>, cfg: Config) -> bool
    decreases inp.len(),
{
    if inp.len() == 0 {
        out.len() == 0
    } else {
        let a = inp.last();
        if a.animal.energy == 0 {
            cat_brood(inp.drop_last(), out, cfg)
        } else {
            ||| (out.len() >= 1 && out.last() == a && cat_brood(
                inp.drop_last(),
                out.drop_last(),
                cfg,
            ))
            ||| (out.len() >= 2 && out.last() == a && is_cat_child(out[out.len() - 2], a, cfg)
                && cat_brood(inp.drop_last(), out.take(out.len() - 2), cfg))
        }
    }
}

/// `s` is ordered by the eaten-counter, largest first.
pub open spec fn sorted_by_ate_desc(s: Seq<Cat>) -> bool {
    forall|i: int, j: int|
        0 <= i < j < s.len() ==> (#[trigger] s[i]).ate >= (#[trigger] s[j]).ate
}

/// `surv` is the top decile of `all`: the first tenth of some ordering of
/// `all` by the eaten-counter, largest first.
pub open spec fn is_selection(surv: Seq<Cat>, all: Seq<Cat>) -> bool {
    exists|sorted: Seq<Cat>|
        {
            &&& sorted_by_ate_desc(sorted)
            &&& #[trigger] sorted.to_multiset() == all.to_multiset()
            &&& surv == sorted.take(all.len() as int / 10)
        }
}

/// `out` is the next generation bred from `all`: the top decile survives,
/// and descendants of the survivors, cycling through them in order, fill
/// the population to exactly the configured target; with no survivor the
/// next generation is empty.
pub open spec fn next_gen_rel(all: Seq<Cat>, out: Seq<Cat>, cfg: Config) -> bool {
    exists|surv: Seq<Cat>|
        {
            &&& #[trigger] is_selection(surv, all)
            &&& surv.len() == all.len() as int / 10
            &&& if surv.len() == 0 {
                out.len() == 0
            } else {
                out.len() == cfg.breed_count && forall|j: int|
                    0 <= j < out.len() ==> is_cat_child(
                        #[trigger] out[j],
                        surv[j % (surv.len() as int)],
                        cfg,
                    )
            }
        }
}

/// In a population ordered by the eaten-counter, everyone selected ate at
/// least as much as anyone passed over: selection keeps only top feeders.
pub proof fn lemma_survivors_dominate(sorted: Seq<Cat>, k: int)
    requires
        sorted_by_ate_desc(sorted),
        0 <= k <= sorted.len(),
    ensures
        forall|i: int, j: int|
            0 <= i < k && k <= j < sorted.len() ==> (#[trigger] sorted[i]).ate
                >= (#[trigger] sorted[j]).ate,
{
}

impl Cat {
    /// Nudge a weight by a uniform step of at most `amp` either way,
    /// clamped to `[0, value_max]`: the result always lies in
    /// `[max(0, value - amp), min(value_max, value + amp)]`.
    pub fn mutate(value: i64, value_max: i64, amp: i64, rng: &mut RandomSource) -> (r: i64)
        requires
            0 <= value <= value_max,
            0 <= amp <= WEIGHT_LIMIT,
            value_max <= WEIGHT_LIMIT,
        ensures
            weight_mutated(r as int, value as int, value_max as int, amp as int),
            0 <= r <= value_max,
    {
        let delta = rng.below_i64(2 * amp + 1) - amp;
        let raw = value + delta;
        let lo = if raw < 0 {
            0
        } else {
            raw
        };
        if lo > value_max {
            value_max
        } else {
            lo
        }
    }

    /// A descendant: a freshly randomized predator whose four weights are
    /// the parent's, each nudged by at most the mutation amplitude, with
    /// full energy and an empty eaten-counter.
    pub fn descendant(&self, cfg: &Config, rng: &mut RandomSource, ids: &mut IdGen) -> (r: Cat)
        requires
            cfg.valid(),
            self.ok(*cfg),
            old(ids).next < u64::MAX,
        ensures
            is_cat_child(r, *self, *cfg),
            r.animal.id == old(ids).next,
            final(ids).next == old(ids).next + 1,
    {
        let base = Cat::new(cfg, rng, ids);
        Cat {
            animal: base.animal,
            chase_weight: Cat::mutate(self.chase_weight, cfg.chase_max, cfg.mutate_abs, rng),
            separate_weight: Cat::mutate(
                self.separate_weight,
                cfg.separate_max,
                cfg.mutate_abs,
                rng,
            ),
            align_weight: Cat::mutate(self.align_weight, cfg.align_max, cfg.mutate_abs, rng),
            cohension_weight: Cat::mutate(
                self.cohension_weight,
                cfg.cohension_max,
                cfg.mutate_abs,
                rng,
            ),
            ate: 0,
        }
    }

    /// One lifecycle pass: drop the agents whose energy is exhausted; give
    /// each survivor one chance in `energy_max` of breeding a descendant,
    /// pushed just before it; keep the survivors verbatim and in order.
    pub fn life_manage(animals: &Vec<Cat>, cfg: &Config, rng: &mut RandomSource, ids: &mut IdGen)
        -> (r: Vec<Cat>)
        requires
            cfg.valid(),
            forall|i: int| 0 <= i < animals@.len() ==> (#[trigger] animals@[i]).ok(*cfg),
            old(ids).next <= u64::MAX - animals@.len(),
            cat_ids_distinct(animals@),
            cat_ids_below(animals@, old(ids).next as int),
        ensures
            cat_brood(animals@, r@, *cfg),
            forall|i: int|
                0 <= i < r@.len() ==> (#[trigger] r@[i]).ok(*cfg) && r@[i].animal.energy >= 1,
            old(ids).next <= final(ids).next <= old(ids).next + animals@.len(),
            cat_ids_distinct(r@),
            cat_ids_below(r@, final(ids).next as int),
            forall|k: int|
                0 <= k < r@.len() ==> old(ids).next <= (#[trigger] r@[k]).animal.id
                    || exists|j: int|
                    0 <= j < animals@.len() && (#[trigger] animals@[j]).animal.id
                        == r@[k].animal.id,
    {
        let mut out: Vec<Cat> = Vec::new();
        let ghost start = ids.next;
        proof {
            assert(animals@.take(0) =~= Seq::<Cat>::empty());
        }
        let n = animals.len();
        for i in 0..n
            invariant
                n == animals@.len(),
                cfg.valid(),
                forall|j: int| 0 <= j < animals@.len() ==> (#[trigger] animals@[j]).ok(*cfg),
                cat_brood(animals@.take(i as int), out@, *cfg),
                forall|j: int|
                    0 <= j < out@.len() ==> (#[trigger] out@[j]).ok(*cfg) && out@[j].animal.energy
                        >= 1,
                start <= ids.next <= start + i,
                start <= u64::MAX - n,
                cat_ids_distinct(animals@),
                cat_ids_below(animals@, start as int),
                cat_ids_distinct(out@),
                cat_ids_below(out@, ids.next as int),
                forall|k: int|
                    0 <= k < out@.len() ==> start <= (#[trigger] out@[k]).animal.id
                        || exists|j: int|
                        0 <= j < i && (#[trigger] animals@[j]).animal.id == out@[k].animal.id,
        {
            let ghost pre_out = out@;
            let a = animals[i];
            proof {
                assert(animals@.take(i + 1 as int).drop_last() =~= animals@.take(i as int));
                assert(animals@.take(i + 1 as int).last() == a);
            }
            if a.animal.energy == 0 {
            } else {
                if rng.one_in(cfg.energy_max) {
                    let child = a.descendant(cfg, rng, ids);
                    out.push(child);
                    out.push(a);
                    proof {
                        assert(out@.len() >= 2);
                        assert(out@.last() == a);
                        assert(out@[out@.len() - 2] == child);
                        assert(out@.take(out@.len() - 2) =~= pre_out);
                        assert(a.animal.id == animals@[i as int].animal.id);
                        assert forall|p: int, q: int| 0 <= p < q < out@.len() implies (
                        #[trigger] out@[p]).animal.id != (#[trigger] out@[q]).animal.id by {
                            if q < out@.len() - 2 {
                                assert(out@[p] == pre_out[p] && out@[q] == pre_out[q]);
                            } else if q == out@.len() - 2 {
                                assert(out@[p] == pre_out[p] && out@[q] == child);
                            } else if p < out@.len() - 2 {
                                assert(out@[p] == pre_out[p] && out@[q] == a);
                                if pre_out[p].animal.id == a.animal.id {
                                    assert(start <= pre_out[p].animal.id || exists|j: int|
                                        0 <= j < i && (#[trigger] animals@[j]).animal.id
                                            == pre_out[p].animal.id);
                                    if !(start <= pre_out[p].animal.id) {
                                        let j = choose|j: int|
                                            0 <= j < i && (#[trigger] animals@[j]).animal.id
                                                == pre_out[p].animal.id;
                                        assert(animals@[j].animal.id
                                            != animals@[i as int].animal.id);
                                    }
                                }
                            } else {
                                assert(out@[p] == child && out@[q] == a);
                            }
                        }
                    }
                } else {
                    out.push(a);
                    proof {
                        assert(out@.last() == a);
                        assert(out@.drop_last() =~= pre_out);
                        assert(a.animal.id == animals@[i as int].animal.id);
                        assert forall|p: int, q: int| 0 <= p < q < out@.len() implies (
                        #[trigger] out@[p]).animal.id != (#[trigger] out@[q]).animal.id by {
                            if q < out@.len() - 1 {
                                assert(out@[p] == pre_out[p] && out@[q] == pre_out[q]);
                            } else {
                                assert(out@[p] == pre_out[p] && out@[q] == a);
                                if pre_out[p].animal.id == a.animal.id {
                                    assert(start <= pre_out[p].animal.id || exists|j: int|
                                        0 <= j < i && (#[trigger] animals@[j]).animal.id
                                            == pre_out[p].animal.id);
                                    if !(start <= pre_out[p].animal.id) {
                                        let j = choose|j: int|
                                            0 <= j < i && (#[trigger] animals@[j]).animal.id
                                                == pre_out[p].animal.id;
                                        assert(animals@[j].animal.id
                                            != animals@[i as int].animal.id);
                                    }
                                }
                            }
                        }
                    }
                }
            }
        }
        proof {
            assert(animals@.take(n as int) =~= animals@);
        }
        out
    }

    /// One steering-and-lifecycle tick for the whole predator population:
    /// every predator takes its `chase` step against the previous tick's
    /// indexes, then the lifecycle pass runs over the stepped population.
    pub fn next_states(
        cats: &Vec<Cat>,
        cats_tree: &QuadTree,
        rats_tree: &QuadTree,
        cfg: &Config,
        rng: &mut RandomSource,
        ids: &mut IdGen,
    ) -> (r: Vec<Cat>)
        requires
            cfg.valid(),
            tree_ready(*cats_tree, *cfg),
            tree_ready(*rats_tree, *cfg),
            forall|i: int|
                0 <= i < cats@.len() ==> (#[trigger] cats@[i]).ok(*cfg) && cats@[i].animal.energy
                    >= 1,
            old(ids).next <= u64::MAX - cats@.len(),
            cat_ids_distinct(cats@),
            cat_ids_below(cats@, old(ids).next as int),
        ensures
            cats_ticked(cats@, r@, *cats_tree, *rats_tree, *cfg),
            forall|i: int|
                0 <= i < r@.len() ==> (#[trigger] r@[i]).ok(*cfg) && r@[i].animal.energy >= 1,
            old(ids).next <= final(ids).next <= old(ids).next + cats@.len(),
            cat_ids_distinct(r@),
            cat_ids_below(r@, final(ids).next as int),
            forall|k: int|
                0 <= k < r@.len() ==> old(ids).next <= (#[trigger] r@[k]).animal.id
                    || exists|j: int|
                    0 <= j < cats@.len() && (#[trigger] cats@[j]).animal.id == r@[k].animal.id,
    {
        let mut stepped: Vec<Cat> = Vec::new();
        let n = cats.len();
        for i in 0..n
            invariant
                n == cats@.len(),
                cfg.valid(),
                tree_ready(*cats_tree, *cfg),
                tree_ready(*rats_tree, *cfg),
                forall|j: int|
                    0 <= j < cats@.len() ==> (#[trigger] cats@[j]).ok(*cfg)
                        && cats@[j].animal.energy >= 1,
                stepped@.len() == i,
                forall|j: int|
                    0 <= j < i ==> chase_rel(
                        cats@[j],
                        #[trigger] stepped@[j],
                        *cats_tree,
                        *rats_tree,
                        *cfg,
                    ),
                forall|j: int| 0 <= j < i ==> (#[trigger] stepped@[j]).ok(*cfg),
                forall|j: int|
                    0 <= j < i ==> (#[trigger] stepped@[j]).animal.id == cats@[j].animal.id,
        {
            stepped.push(cats[i].chase(cats_tree, rats_tree, cfg));
        }
        proof {
            assert(cat_ids_distinct(stepped@));
            assert(cat_ids_below(stepped@, ids.next as int));
        }
        let r = Cat::life_manage(&stepped, cfg, rng, ids);
        proof {
            assert forall|k: int| 0 <= k < r@.len() implies old(ids).next <= (
            #[trigger] r@[k]).animal.id || exists|j: int|
                0 <= j < cats@.len() && (#[trigger] cats@[j]).animal.id == r@[k].animal.id by {
                if !(old(ids).next <= r@[k].animal.id) {
                    let j = choose|j: int|
                        0 <= j < stepped@.len() && (#[trigger] stepped@[j]).animal.id
                            == r@[k].animal.id;
                    assert(cats@[j].animal.id == r@[k].animal.id);
                }
            }
            let ghost w = stepped@;
            assert(w.len() == cats@.len() && (forall|i: int|
                0 <= i < cats@.len() ==> chase_rel(
                    cats@[i],
                    #[trigger] w[i],
                    *cats_tree,
                    *rats_tree,
                    *cfg,
                )) && cat_brood(w, r@, *cfg));
        }
        r
    }

    /// Order the population by the eaten-counter, largest first; exactly
    /// the same individuals, re-arranged.
    fn sort_by_ate(cats: &Vec<Cat>) -> (r: Vec<Cat>)
        ensures
            sorted_by_ate_desc(r@),
            r@.to_multiset() == cats@.to_multiset(),
            r@.len() == cats@.len(),
    {
        let mut out: Vec<Cat> = Vec::new();
        proof {
            assert(cats@.take(0) =~= Seq::<Cat>::empty());
            Seq::<Cat>::empty().to_multiset_ensures();
            assert(cats@.take(0).to_multiset() =~= Seq::<Cat>::empty().to_multiset());
        }
        let n = cats.len();
        for i in 0..n
            invariant
                n == cats@.len(),
                sorted_by_ate_desc(out@),
                out@.to_multiset() == cats@.take(i as int).to_multiset(),
                out@.len() == i,
        {
            let e = cats[i];
            let mut j: usize = 0;
            while j < out.len() && out[j].ate >= e.ate
                invariant
                    j <= out@.len(),
                    forall|k: int| 0 <= k < j ==> (#[trigger] out@[k]).ate >= e.ate,
                decreases out@.len() - j,
            {
                j = j + 1;
            }
            let ghost pre_out = out@;
            out.insert(j, e);
            proof {
                assert(out@ == pre_out.insert(j as int, e));
                assert forall|a: int, b: int| 0 <= a < b < out@.len() implies (
                #[trigger] out@[a]).ate >= (#[trigger] out@[b]).ate by {
                    if a < j && b == j {
                        assert(out@[a] == pre_out[a]);
                    } else if a == j && b > j {
                        assert(out@[b] == pre_out[b - 1]);
                        assert(j < pre_out.len() + 1);
                        assert(b - 1 >= j);
                        assert(pre_out[j as int].ate < e.ate || j as int >= pre_out.len());
                    } else if a < j && b > j {
                        assert(out@[a] == pre_out[a] && out@[b] == pre_out[b - 1]);
                    } else if a > j || b < j {
                        assert(out@[a] == (if a < j { pre_out[a] } else { pre_out[a - 1] }));
                        assert(out@[b] == (if b < j { pre_out[b] } else { pre_out[b - 1] }));
                    }
                }
                vstd::seq_lib::to_multiset_insert(pre_out, j as int, e);
                vstd::seq_lib::to_multiset_build(cats@.take(i as int), cats@[i as int]);
                assert(cats@.take(i + 1 as int) =~= cats@.take(i as int).push(cats@[i as int]));
            }
        }
        proof {
            assert(cats@.take(n as int) =~= cats@);
        }
        out
    }

    /// The top tenth of the population by the eaten-counter: the survivors
    /// that seed the next generation.
    pub fn collect_servive(cats: &Vec<Cat>) -> (r: Vec<Cat>)
        ensures
            is_selection(r@, cats@),
            r@.len() == cats@.len() as int / 10,
            forall|i: int| 0 <= i < r@.len() ==> cats@.contains(#[trigger] r@[i]),
    {
        let sorted = Cat::sort_by_ate(cats);
        let keep = cats.len() / 10;
        let mut out: Vec<Cat> = Vec::new();
        for i in 0..keep
            invariant
                keep == cats@.len() / 10,
                keep <= sorted@.len(),
                out@ == sorted@.take(i as int),
        {
            out.push(sorted[i]);
            proof {
                assert(sorted@.take(i + 1 as int) =~= sorted@.take(i as int).push(
                    sorted@[i as int],
                ));
            }
        }
        proof {
            let ghost s = sorted@;
            assert(sorted_by_ate_desc(s) && s.to_multiset() == cats@.to_multiset() && out@
                == s.take(cats@.len() as int / 10));
            assert forall|i: int| 0 <= i < out@.len() implies cats@.contains(
                #[trigger] out@[i],
            ) by {
                assert(out@[i] == s[i]);
                vstd::seq_lib::to_multiset_contains(s, s[i]);
                assert(s.contains(s[i]));
                vstd::seq_lib::to_multiset_contains(cats@, s[i]);
            }
        }
        out
    }

    /// Selection and repopulation: the top decile survives, and their
    /// mutated descendants, bred by cycling through the survivors in
    /// order, fill the next generation to exactly the configured target.
    /// With no survivor the next generation is empty.
    pub fn next_generation(
        cats: &Vec<Cat>,
        cfg: &Config,
        rng: &mut RandomSource,
        ids: &mut IdGen,
    ) -> (r: Vec<Cat>)
        requires
            cfg.valid(),
            forall|i: int| 0 <= i < cats@.len() ==> (#[trigger] cats@[i]).ok(*cfg),
            old(ids).next <= u64::MAX - cfg.breed_count,
        ensures
            next_gen_rel(cats@, r@, *cfg),
            forall|i: int|
                0 <= i < r@.len() ==> (#[trigger] r@[i]).ok(*cfg) && r@[i].animal.energy
                    == cfg.energy_max && r@[i].ate == 0,
            old(ids).next <= final(ids).next <= old(ids).next + cfg.breed_count,
            cat_ids_distinct(r@),
            cat_ids_below(r@, final(ids).next as int),
            forall|i: int| 0 <= i < r@.len() ==> old(ids).next <= (#[trigger] r@[i]).animal.id,
    {
        let superior = Cat::collect_servive(cats);
        proof {
            assert forall|i: int| 0 <= i < superior@.len() implies (#[trigger] superior@[i]).ok(
                *cfg,
            ) by {
                assert(cats@.contains(superior@[i]));
                let k = choose|k: int| 0 <= k < cats@.len() && cats@[k] == superior@[i];
            }
        }
        let slen = superior.len();
        let mut out: Vec<Cat> = Vec::new();
        if slen == 0 {
            proof {
                assert(is_selection(superior@, cats@));
            }
            return out;
        }
        let ghost start = ids.next;
        let mut k: usize = 0;
        while out.len() < cfg.breed_count
            invariant
                cfg.valid(),
                slen == superior@.len(),
                1 <= slen,
                forall|j: int| 0 <= j < superior@.len() ==> (#[trigger] superior@[j]).ok(*cfg),
                k == out@.len(),
                k <= cfg.breed_count,
                forall|j: int|
                    0 <= j < out@.len() ==> is_cat_child(
                        #[trigger] out@[j],
                        superior@[j % (slen as int)],
                        *cfg,
                    ),
                ids.next == start + k,
                start <= u64::MAX - cfg.breed_count,
                forall|j: int|
                    0 <= j < out@.len() ==> (#[trigger] out@[j]).animal.id == start + j,
            decreases cfg.breed_count - out@.len(),
        {
            let idx = k % slen;
            let child = superior[idx].descendant(cfg, rng, ids);
            out.push(child);
            k = k + 1;
        }
        proof {
            assert(is_selection(superior@, cats@));
            assert(out@.len() == cfg.breed_count);
        }
        out
    }
}

/// One whole-population predator tick: some stepped intermediate relates
/// every predator to its `chase` result against the frozen indexes, and
/// the output is one lifecycle pass over it.
pub open spec fn cats_ticked(
    pre: Seq<Cat>,
    post: Seq<Cat>,
    ct: QuadTree,
    rt: QuadTree,
    cfg: Config,
) -> bool {
    exists|stepped: Seq<Cat>|
        {
            &&& stepped.len() == pre.len()
            &&& (forall|i: int|
                0 <= i < pre.len() ==> chase_rel(pre[i], #[trigger] stepped[i], ct, rt, cfg))
            &&& cat_brood(stepped, post, cfg)
        }
}

/// Sum of the chase weights of `s`.
pub open spec fn sum_chase(s: Seq<Cat>) -> int
    decreases s.len(),
{
    if s.len() == 0 {
        0
    } else {
        sum_chase(s.drop_last()) + s.last().chase_weight
    }
}

/// Sum of the separation weights of `s`.
pub open spec fn sum_separate(s: Seq<Cat>) -> int
    decreases s.len(),
{
    if s.len() == 0 {
        0
    } else {
        sum_separate(s.drop_last()) + s.last().separate_weight
    }
}

/// Sum of the alignment weights of `s`.
pub open spec fn sum_align(s: Seq<Cat>) -> int
    decreases s.len(),
{
    if s.len() == 0 {
        0
    } else {
        sum_align(s.drop_last()) + s.last().align_weight
    }
}

/// Sum of the cohesion weights of `s`.
pub open spec fn sum_cohension(s: Seq<Cat>) -> int
    decreases s.len(),
{
    if s.len() == 0 {
        0
    } else {
        sum_cohension(s.drop_last()) + s.last().cohension_weight
    }
}

/// The mean of a nonnegative weight sum over a positive count.
pub fn weight_mean(acc: i128, n: usize) -> (r: i64)
    requires
        1 <= n,
        0 <= acc <= n * (WEIGHT_LIMIT as i128),
    ensures
        r == crate::steering::div_trunc(acc as int, n as int),
{
    proof {
        assert(acc / (n as i128) <= WEIGHT_LIMIT as i128 && acc / (n as i128) >= 0)
            by (nonlinear_arith)
            requires
                1 <= n as i128,
                0 <= acc <= (n as i128) * (WEIGHT_LIMIT as i128),
        ;
    }
    (acc / (n as i128)) as i64
}

/// Energy and fitness accounting for one predator step: absent a meal the
/// energy falls by exactly one and the eaten-counter is unchanged; a meal
/// adds exactly the configured energy before the move's cost and counts
/// exactly one more prey.
pub proof fn lemma_energy_accounting(pre: Cat, post: Cat, ct: QuadTree, rt: QuadTree, cfg: Config)
    requires
        chase_rel(pre, post, ct, rt, cfg),
    ensures
        !can_eat(pre, rt, cfg) ==> post.animal.energy == pre.animal.energy - 1,
        !can_eat(pre, rt, cfg) ==> post.ate == pre.ate,
        can_eat(pre, rt, cfg) && pre.animal.energy + cfg.eat_energy <= u64::MAX
            ==> post.animal.energy == pre.animal.energy + cfg.eat_energy - 1,
        can_eat(pre, rt, cfg) && pre.ate < u32::MAX ==> post.ate == pre.ate + 1,
{
}

} // verus!
