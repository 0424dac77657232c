//! The prey: runs away from nearby predators, is eaten when one comes
//! within the eating radius, and carries no evolvable weights.

use vstd::prelude::*;
use crate::config::{Config, SCALE, PLANE_LIMIT};
use crate::pvector::{PVector, sq, bounded, norm_x};
use crate::quad_tree::{QuadTree, AgentSnap, hit};
use crate::animal::{Animal, wrap_coord, step_limit, snap_of};
use crate::rng::{RandomSource, IdGen};
use crate::steering::{near_seq, dir_x, dir_y, tree_ready, collect_near_pvectors, calculate_direction};
use crate::seq_lemmas::{lemma_filter_none, lemma_filter_push, lemma_filter_subset};

verus! {

/// A prey animal.
#[derive(Clone, Copy, PartialEq, Eq, Structural, Debug)]
pub struct Rat {
    pub animal: Animal,
}

impl Rat {
    /// The prey's state is inside the plane, at the configured cruising
    /// speed.
    pub open spec fn ok(self, cfg: Config) -> bool {
        &&& self.animal.ok(cfg)
        &&& self.animal.speed == cfg.rat_speed
    }

    /// A fresh prey animal: random position and heading, full energy, a
    /// fresh identity.
    pub fn new(cfg: &Config, rng: &mut RandomSource, ids: &mut IdGen) -> (r: Rat)
        requires
            cfg.valid(),
            old(ids).next < u64::MAX,
        ensures
            r.ok(*cfg),
            r.animal.id == old(ids).next,
            final(ids).next == old(ids).next + 1,
            r.animal.energy == cfg.energy_max,
            crate::animal::cruising_velocity(r.animal.velocity, cfg.rat_speed as int),
    {
        let id = ids.fresh();
        Rat { animal: Animal::new(cfg, cfg.rat_speed, id, rng) }
    }

    /// Apply the velocity to the position, wrapping per axis, for one
    /// energy.
    pub fn move_self(&self, cfg: &Config) -> (r: Rat)
        requires
            cfg.valid(),
            self.animal.ok(*cfg),
            self.animal.energy >= 1,
        ensures
            r == (Rat { animal: self.animal.move_self_spec(*cfg) }),
            r.animal.ok(*cfg),
    {
        Rat { animal: self.animal.move_self(cfg) }
    }

    /// The current velocity.
    pub fn as_velocity(&self) -> (r: PVector)
        ensures
            r == self.animal.velocity,
    {
        self.animal.velocity
    }

    /// The same prey with the given velocity.
    pub fn apply_velocity(&self, v: &PVector, cfg: &Config) -> (r: Rat)
        requires
            cfg.valid(),
            bounded(*v, step_limit(*cfg)),
        ensures
            r == (Rat { animal: (Animal { velocity: *v, ..self.animal }) }),
    {
        Rat { animal: self.animal.apply_velocity(v, cfg) }
    }

    /// `other` is strictly within `radius`, by toroidal distance.
    pub fn is_within(&self, other: &Animal, radius: i64, cfg: &Config) -> (r: bool)
        requires
            cfg.valid(),
            self.animal.ok(*cfg),
            other.ok(*cfg),
            0 <= radius <= PLANE_LIMIT,
        ensures
            r == (crate::pvector::dist2(
                self.animal.position,
                other.position,
                cfg.width as int,
                cfg.height as int,
            ) < sq(radius as int)),
    {
        self.animal.is_within(other, radius, cfg)
    }

    /// The current position.
    pub fn position(&self) -> (r: PVector)
        ensures
            r == self.animal.position,
    {
        self.animal.position
    }

    /// The signed nearest displacement toward `other`.
    pub fn offset(&self, other: &Animal, cfg: &Config) -> (r: PVector)
        requires
            cfg.valid(),
            self.animal.ok(*cfg),
            other.ok(*cfg),
        ensures
            r.x == crate::pvector::wrap_offset(
                self.animal.position.x as int,
                other.position.x as int,
                cfg.width as int,
            ),
            r.y == crate::pvector::wrap_offset(
                self.animal.position.y as int,
                other.position.y as int,
                cfg.height as int,
            ),
    {
        self.animal.offset(other, cfg)
    }

    /// Same individual, by identity.
    pub fn is_same(&self, other: &Rat) -> (r: bool)
        ensures
            r == (self.animal.id == other.animal.id),
    {
        self.animal.id == other.animal.id
    }

    /// The identity.
    pub fn id(&self) -> (r: u64)
        ensures
            r == self.animal.id,
    {
        self.animal.id
    }

    /// The index snapshot of this prey.
    pub fn as_snap(&self) -> (r: AgentSnap)
        ensures
            r == snap_of(self.animal),
    {
        self.animal.as_snap()
    }

    /// The evasion contribution: the unit direction away from the average
    /// offset of predators within the evasion radius; exactly zero when
    /// none is near.
    pub fn run_away_vector(&self, cats_tree: &QuadTree, cfg: &Config) -> (r: PVector)
        requires
            cfg.valid(),
            self.ok(*cfg),
            tree_ready(*cats_tree, *cfg),
        ensures
            r.x == runaway_vec_x(*self, *cats_tree, *cfg),
            r.y == runaway_vec_y(*self, *cats_tree, *cfg),
            bounded(r, SCALE as int),
    {
        let near = collect_near_pvectors(
            cats_tree,
            self.animal.id,
            &self.animal.position,
            cfg.runaway_radius,
            cfg,
        );
        if near.len() == 0 {
            PVector::zero()
        } else {
            let d = calculate_direction(&self.animal.position, &near, cfg);
            d.mult(-1)
        }
    }

    /// One evasion step: add the evasion contribution to the own velocity,
    /// rescale to cruising speed (or keep the velocity unchanged on a zero
    /// sum), then move.
    pub fn run_away(&self, cats_tree: &QuadTree, cfg: &Config) -> (r: Rat)
        requires
            cfg.valid(),
            self.ok(*cfg),
            tree_ready(*cats_tree, *cfg),
            self.animal.energy >= 1,
        ensures
            rat_step_rel(*self, r, *cats_tree, *cfg),
            r.ok(*cfg),
    {
        let rv = self.run_away_vector(cats_tree, cfg);
        let combined = self.animal.velocity.add(&rv);
        let next_velocity = if combined.x == 0 && combined.y == 0 {
            self.animal.velocity
        } else {
            combined.with_magnitude(self.animal.speed)
        };
        self.apply_velocity(&next_velocity, cfg).move_self(cfg)
    }

    /// Some predator stands within the eating radius: this prey is eaten.
    pub fn eaten(&self, cats_tree: &QuadTree, cfg: &Config) -> (r: bool)
        requires
            cfg.valid(),
            self.ok(*cfg),
            tree_ready(*cats_tree, *cfg),
        ensures
            r == rat_eaten(*self, *cats_tree, *cfg),
    {
        let found = cats_tree.search(&self.animal.position, cfg.eaten_radius, cfg.width, cfg.height);
        found.len() > 0
    }

    /// Remove every prey a predator can eat this tick, before the
    /// survivors compute their evasion: an eaten prey does not also run
    /// away in the same tick.
    pub fn delete_eaten(cats_tree: &QuadTree, rats: &Vec<Rat>, cfg: &Config) -> (r: Vec<Rat>)
        requires
            cfg.valid(),
            tree_ready(*cats_tree, *cfg),
            forall|i: int| 0 <= i < rats@.len() ==> (#[trigger] rats@[i]).ok(*cfg),
        ensures
            r@ == alive_rats(rats@, *cats_tree, *cfg),
            forall|i: int| 0 <= i < r@.len() ==> rats@.contains(#[trigger] r@[i]),
    {
        let ghost pred = |x: Rat| !rat_eaten(x, *cats_tree, *cfg);
        let mut kept: Vec<Rat> = Vec::new();
        proof {
            assert(rats@.take(0) =~= Seq::<Rat>::empty());
            lemma_filter_none(rats@.take(0), pred);
        }
        let n = rats.len();
        for i in 0..n
            invariant
                n == rats@.len(),
                cfg.valid(),
                tree_ready(*cats_tree, *cfg),
                forall|j: int| 0 <= j < rats@.len() ==> (#[trigger] rats@[j]).ok(*cfg),
                kept@ == rats@.take(i as int).filter(pred),
                pred == (|x: Rat| !rat_eaten(x, *cats_tree, *cfg)),
        {
            proof {
                lemma_filter_push(rats@.take(i as int), rats@[i as int], pred);
                assert(rats@.take(i + 1 as int) =~= rats@.take(i as int).push(rats@[i as int]));
            }
            if !rats[i].eaten(cats_tree, cfg) {
                kept.push(rats[i]);
            }
        }
        proof {
            assert(rats@.take(n as int) =~= rats@);
            lemma_filter_subset(rats@, pred);
            assert forall|i: int| 0 <= i < kept@.len() implies rats@.contains(
                #[trigger] kept@[i],
            ) by {
                assert(kept@.contains(kept@[i]));
            }
        }
        kept
    }

    /// A descendant: a freshly randomized prey animal with full energy.
    pub fn descendant(&self, cfg: &Config, rng: &mut RandomSource, ids: &mut IdGen) -> (r: Rat)
        requires
            cfg.valid(),
            old(ids).next < u64::MAX,
        ensures
            is_rat_child(r, *cfg),
            r.animal.id == old(ids).next,
            final(ids).next == old(ids).next + 1,
    {
        Rat::new(cfg, rng, ids)
    }

    /// One lifecycle pass: drop the prey whose energy is exhausted; give
    /// each survivor one chance in `energy_max` of breeding a descendant,
    /// pushed just before it; keep the survivors verbatim and in order.
    pub fn life_manage(animals: &Vec<Rat>, cfg: &Config, rng: &mut RandomSource, ids: &mut IdGen)
        -> (r: Vec<Rat>)
        requires
            cfg.valid(),
            old(ids).next <= u64::MAX - animals@.len(),
            rat_ids_distinct(animals@),
            rat_ids_below(animals@, old(ids).next as int),
        ensures
            rat_brood(animals@, r@, *cfg),
            (forall|i: int| 0 <= i < animals@.len() ==> (#[trigger] animals@[i]).ok(*cfg))
                ==> forall|i: int|
                0 <= i < r@.len() ==> (#[trigger] r@[i]).ok(*cfg) && r@[i].animal.energy >= 1,
            old(ids).next <= final(ids).next <= old(ids).next + animals@.len(),
            rat_ids_distinct(r@),
            rat_ids_below(r@, final(ids).next as int),
            forall|k: int|
                0 <= k < r@.len() ==> old(ids).next <= (#[trigger] r@[k]).animal.id
                    || exists|j: int|
                    0 <= j < animals@.len() && (#[trigger] animals@[j]).animal.id
                        == r@[k].animal.id,
    {
        let mut out: Vec<Rat> = Vec::new();
        let ghost start = ids.next;
        let ghost all_ok = forall|i: int| 0 <= i < animals@.len() ==> (#[trigger] animals@[i]).ok(
            *cfg,
        );
        proof {
            assert(animals@.take(0) =~= Seq::<Rat>::empty());
        }
        let n = animals.len();
        for i in 0..n
            invariant
                n == animals@.len(),
                cfg.valid(),
                all_ok == (forall|j: int|
                    0 <= j < animals@.len() ==> (#[trigger] animals@[j]).ok(*cfg)),
                rat_brood(animals@.take(i as int), out@, *cfg),
                all_ok ==> forall|j: int|
                    0 <= j < out@.len() ==> (#[trigger] out@[j]).ok(*cfg) && out@[j].animal.energy
                        >= 1,
                start <= ids.next <= start + i,
                start <= u64::MAX - n,
                rat_ids_distinct(animals@),
                rat_ids_below(animals@, start as int),
                rat_ids_distinct(out@),
                rat_ids_below(out@, ids.next as int),
                forall|k: int|
                    0 <= k < out@.len() ==> start <= (#[trigger] out@[k]).animal.id
                        || exists|j: int|
                        0 <= j < i && (#[trigger] animals@[j]).animal.id == out@[k].animal.id,
        {
            let ghost pre_out = out@;
            let a = animals[i];
            proof {
                assert(animals@.take(i + 1 as int).drop_last() =~= animals@.take(i as int));
                assert(animals@.take(i + 1 as int).last() == a);
            }
            if a.animal.energy == 0 {
            } else {
                if rng.one_in(cfg.energy_max) {
                    let child = a.descendant(cfg, rng, ids);
                    out.push(child);
                    out.push(a);
                    proof {
                        assert(out@.len() >= 2);
                        assert(out@.last() == a);
                        assert(out@[out@.len() - 2] == child);
                        assert(out@.take(out@.len() - 2) =~= pre_out);
                        assert(a.animal.id == animals@[i as int].animal.id);
                        assert forall|p: int, q: int| 0 <= p < q < out@.len() implies (
                        #[trigger] out@[p]).animal.id != (#[trigger] out@[q]).animal.id by {
                            if q < out@.len() - 2 {
                                assert(out@[p] == pre_out[p] && out@[q] == pre_out[q]);
                            } else if q == out@.len() - 2 {
                                assert(out@[p] == pre_out[p] && out@[q] == child);
                            } else if p < out@.len() - 2 {
                                assert(out@[p] == pre_out[p] && out@[q] == a);
                                if pre_out[p].animal.id == a.animal.id {
                                    assert(start <= pre_out[p].animal.id || exists|j: int|
                                        0 <= j < i && (#[trigger] animals@[j]).animal.id
                                            == pre_out[p].animal.id);
                                    if !(start <= pre_out[p].animal.id) {
                                        let j = choose|j: int|
                                            0 <= j < i && (#[trigger] animals@[j]).animal.id
                                                == pre_out[p].animal.id;
                                        assert(animals@[j].animal.id
                                            != animals@[i as int].animal.id);
                                    }
                                }
                            } else {
                                assert(out@[p] == child && out@[q] == a);
                            }
                        }
                    }
                } else {
                    out.push(a);
                    proof {
                        assert(out@.last() == a);
                        assert(out@.drop_last() =~= pre_out);
                        assert(a.animal.id == animals@[i as int].animal.id);
                        assert forall|p: int, q: int| 0 <= p < q < out@.len() implies (
                        #[trigger] out@[p]).animal.id != (#[trigger] out@[q]).animal.id by {
                            if q < out@.len() - 1 {
                                assert(out@[p] == pre_out[p] && out@[q] == pre_out[q]);
                            } else {
                                assert(out@[p] == pre_out[p] && out@[q] == a);
                                if pre_out[p].animal.id == a.animal.id {
                                    assert(start <= pre_out[p].animal.id || exists|j: int|
                                        0 <= j < i && (#[trigger] animals@[j]).animal.id
                                            == pre_out[p].animal.id);
                                    if !(start <= pre_out[p].animal.id) {
                                        let j = choose|j: int|
                                            0 <= j < i && (#[trigger] animals@[j]).animal.id
                                                == pre_out[p].animal.id;
                                        assert(animals@[j].animal.id
                                            != animals@[i as int].animal.id);
                                    }
                                }
                            }
                        }
                    }
                }
            }
        }
        proof {
            assert(animals@.take(n as int) =~= animals@);
        }
        out
    }

    /// One full prey tick: the prey a predator already reaches are removed
    /// first, every survivor takes its evasion step against the previous
    /// tick's predator index, then the lifecycle pass runs.
    pub fn next_states(
        rats: &Vec<Rat>,
        cats_tree: &QuadTree,
        cfg: &Config,
        rng: &mut RandomSource,
        ids: &mut IdGen,
    ) -> (r: Vec<Rat>)
        requires
            cfg.valid(),
            tree_ready(*cats_tree, *cfg),
            forall|i: int|
                0 <= i < rats@.len() ==> (#[trigger] rats@[i]).ok(*cfg) && rats@[i].animal.energy
                    >= 1,
            old(ids).next <= u64::MAX - rats@.len(),
            rat_ids_distinct(rats@),
            rat_ids_below(rats@, old(ids).next as int),
        ensures
            rats_ticked(rats@, r@, *cats_tree, *cfg),
            forall|i: int|
                0 <= i < r@.len() ==> (#[trigger] r@[i]).ok(*cfg) && r@[i].animal.energy >= 1,
            old(ids).next <= final(ids).next <= old(ids).next + rats@.len(),
            rat_ids_distinct(r@),
            rat_ids_below(r@, final(ids).next as int),
            forall|k: int|
                0 <= k < r@.len() ==> old(ids).next <= (#[trigger] r@[k]).animal.id
                    || exists|j: int|
                    0 <= j < rats@.len() && (#[trigger] rats@[j]).animal.id == r@[k].animal.id,
    {
        let alive = Rat::delete_eaten(cats_tree, rats, cfg);
        proof {
            assert forall|i: int| 0 <= i < alive@.len() implies (#[trigger] alive@[i]).ok(*cfg)
                && alive@[i].animal.energy >= 1 && alive@[i].animal.id < old(ids).next by {
                assert(rats@.contains(alive@[i]));
                let k = choose|k: int| 0 <= k < rats@.len() && rats@[k] == alive@[i];
            }
            assert(alive@.len() <= rats@.len()) by {
                Seq::lemma_filter_len(rats@, |x: Rat| !rat_eaten(x, *cats_tree, *cfg));
            }
            lemma_filter_keeps_rat_ids(rats@, |x: Rat| !rat_eaten(x, *cats_tree, *cfg));
            assert(rat_ids_distinct(alive@));
        }
        let mut stepped: Vec<Rat> = Vec::new();
        let n = alive.len();
        for i in 0..n
            invariant
                n == alive@.len(),
                cfg.valid(),
                tree_ready(*cats_tree, *cfg),
                forall|j: int|
                    0 <= j < alive@.len() ==> (#[trigger] alive@[j]).ok(*cfg)
                        && alive@[j].animal.energy >= 1,
                stepped@.len() == i,
                forall|j: int|
                    0 <= j < i ==> rat_step_rel(
                        alive@[j],
                        #[trigger] stepped@[j],
                        *cats_tree,
                        *cfg,
                    ),
                forall|j: int| 0 <= j < i ==> (#[trigger] stepped@[j]).ok(*cfg),
                forall|j: int|
                    0 <= j < i ==> (#[trigger] stepped@[j]).animal.id == alive@[j].animal.id,
                rat_ids_distinct(alive@),
                rat_ids_below(alive@, ids.next as int),
        {
            stepped.push(alive[i].run_away(cats_tree, cfg));
        }
        proof {
            assert(rat_ids_distinct(stepped@));
            assert(rat_ids_below(stepped@, ids.next as int));
        }
        let r = Rat::life_manage(&stepped, cfg, rng, ids);
        proof {
            assert forall|k: int| 0 <= k < r@.len() implies old(ids).next <= (
            #[trigger] r@[k]).animal.id || exists|j: int|
                0 <= j < rats@.len() && (#[trigger] rats@[j]).animal.id == r@[k].animal.id by {
                if !(old(ids).next <= r@[k].animal.id) {
                    let j = choose|j: int|
                        0 <= j < stepped@.len() && (#[trigger] stepped@[j]).animal.id
                            == r@[k].animal.id;
                    assert(stepped@[j].animal.id == alive@[j].animal.id);
                    assert(rats@.contains(alive@[j]));
                    let m = choose|m: int| 0 <= m < rats@.len() && rats@[m] == alive@[j];
                }
            }
            let ghost w = stepped@;
            assert(w.len() == alive_rats(rats@, *cats_tree, *cfg).len() && (forall|i: int|
                0 <= i < w.len() ==> rat_step_rel(
                    alive_rats(rats@, *cats_tree, *cfg)[i],
                    #[trigger] w[i],
                    *cats_tree,
                    *cfg,
                )) && rat_brood(w, r@, *cfg));
        }
        r
    }
}

/// Some predator stands within the eating radius of `x`.
pub open spec fn rat_eaten(x: Rat, ct: QuadTree, cfg: Config) -> bool {
    ct.members().filter(
        |m: AgentSnap| hit(
            m,
            x.animal.position,
            cfg.eaten_radius as int,
            cfg.width as int,
            cfg.height as int,
        ),
    ).len() > 0
}

/// The prey that survive the predators' reach this tick, in order.
pub open spec fn alive_rats(rats: Seq<Rat>, ct: QuadTree, cfg: Config) -> Seq<Rat> {
    rats.filter(|x: Rat| !rat_eaten(x, ct, cfg))
}

/// x component of the evasion contribution of `x` against the predator
/// index.
pub open spec fn runaway_vec_x(x: Rat, ct: QuadTree, cfg: Config) -> int {
    let near = near_seq(
        ct,
        x.animal.id,
        x.animal.position,
        cfg.runaway_radius as int,
        cfg.width as int,
        cfg.height as int,
    );
    if near.len() == 0 {
        0
    } else {
        dir_x(x.animal.position, near, cfg.width as int, cfg.height as int) * -1
    }
}

/// y component of the evasion contribution.
pub open spec fn runaway_vec_y(x: Rat, ct: QuadTree, cfg: Config) -> int {
    let near = near_seq(
        ct,
        x.animal.id,
        x.animal.position,
        cfg.runaway_radius as int,
        cfg.width as int,
        cfg.height as int,
    );
    if near.len() == 0 {
        0
    } else {
        dir_y(x.animal.position, near, cfg.width as int, cfg.height as int) * -1
    }
}

/// x component of the summed evasion input.
pub open spec fn rat_combined_x(x: Rat, ct: QuadTree, cfg: Config) -> int {
    x.animal.velocity.x + runaway_vec_x(x, ct, cfg)
}

/// y component of the summed evasion input.
pub open spec fn rat_combined_y(x: Rat, ct: QuadTree, cfg: Config) -> int {
    x.animal.velocity.y + runaway_vec_y(x, ct, cfg)
}

/// x component of the prey's next velocity: the summed input rescaled to
/// cruising speed, or the old velocity when the sum is exactly zero.
pub open spec fn rat_next_vel_x(x: Rat, ct: QuadTree, cfg: Config) -> int {
    if rat_combined_x(x, ct, cfg) == 0 && rat_combined_y(x, ct, cfg) == 0 {
        x.animal.velocity.x as int
    } else {
        norm_x(rat_combined_x(x, ct, cfg), rat_combined_y(x, ct, cfg), x.animal.speed as int)
    }
}

/// y component of the prey's next velocity.
pub open spec fn rat_next_vel_y(x: Rat, ct: QuadTree, cfg: Config) -> int {
    if rat_combined_x(x, ct, cfg) == 0 && rat_combined_y(x, ct, cfg) == 0 {
        x.animal.velocity.y as int
    } else {
        norm_x(rat_combined_y(x, ct, cfg), rat_combined_x(x, ct, cfg), x.animal.speed as int)
    }
}

/// How one full prey step relates the new state to the old one: the
/// evasion equation for the velocity, the wrapped move for the position,
/// one energy paid, everything else unchanged.
pub open spec fn rat_step_rel(pre: Rat, post: Rat, ct: QuadTree, cfg: Config) -> bool {
    &&& post.animal.id == pre.animal.id
    &&& post.animal.speed == pre.animal.speed
    &&& post.animal.velocity.x == rat_next_vel_x(pre, ct, cfg)
    &&& post.animal.velocity.y == rat_next_vel_y(pre, ct, cfg)
    &&& post.animal.position.x == wrap_coord(
        pre.animal.position.x + rat_next_vel_x(pre, ct, cfg),
        cfg.width as int,
    )
    &&& post.animal.position.y == wrap_coord(
        pre.animal.position.y + rat_next_vel_y(pre, ct, cfg),
        cfg.height as int,
    )
    &&& post.animal.energy == pre.animal.energy - 1
}

/// `child` is a valid bred prey: a fresh full-energy animal on the plane.
pub open spec fn is_rat_child(child: Rat, cfg: Config) -> bool {
    &&& child.ok(cfg)
    &&& child.animal.energy == cfg.energy_max
}

/// No two prey in `s` share an identity.
pub open spec fn rat_ids_distinct(s: Seq<Rat>) -> bool {
    forall|i: int, j: int|
        0 <= i < j < s.len() ==> (#[trigger] s[i]).animal.id != (#[trigger] s[j]).animal.id
}

/// Every identity in `s` is below `b`: none was handed out at or after it.
pub open spec fn rat_ids_below(s: Seq<Rat>, b: int) -> bool {
    forall|i: int| 0 <= i < s.len() ==> (#[trigger] s[i]).animal.id < b
}

/// Filtering a population with distinct identities keeps them distinct.
proof fn lemma_filter_keeps_rat_ids(s: Seq<Rat>, pred: spec_fn(Rat) -> bool)
    requires
        rat_ids_distinct(s),
    ensures
        rat_ids_distinct(s.filter(pred)),
    decreases s.len(),
{
    reveal(Seq::filter);
    if s.len() > 0 {
        let d = s.drop_last();
        lemma_filter_keeps_rat_ids(d, pred);
        if pred(s.last()) {
            let f = d.filter(pred);
            lemma_filter_subset(d, pred);
            assert forall|i: int, j: int|
                0 <= i < j < f.push(s.last()).len() implies (
            #[trigger] f.push(s.last())[i]).animal.id != (
            #[trigger] f.push(s.last())[j]).animal.id by {
                if j == f.len() {
                    assert(f.push(s.last())[i] == f[i]);
                    assert(f.contains(f[i]));
                    assert(d.contains(f[i]));
                    let k = choose|k: int| 0 <= k < d.len() && d[k] == f[i];
                    assert(s[k] == f[i] && s[s.len() - 1] == s.last());
                } else {
                    assert(f.push(s.last())[i] == f[i] && f.push(s.last())[j] == f[j]);
                }
            }
        }
    }
}

/// `out` is one lifecycle pass over `inp`: prey with exhausted energy are
/// dropped; every surviving prey appears verbatim, possibly preceded by
/// one freshly bred descendant; order is kept.
pub open spec fn rat_brood(inp: Seq<Rat>, out: Seq<Rat>, cfg: Config) -> bool
    decreases inp.len(),
{
    if inp.len() == 0 {
        out.len() == 0
    } else {
        let a = inp.last();
        if a.animal.energy == 0 {
            rat_brood(inp.drop_last(), out, cfg)
        } else {
            ||| (out.len() >= 1 && out.last() == a && rat_brood(
                inp.drop_last(),
                out.drop_last(),
                cfg,
            ))
            ||| (out.len() >= 2 && out.last() == a && is_rat_child(out[out.len() - 2], cfg)
                && rat_brood(inp.drop_last(), out.take(out.len() - 2), cfg))
        }
    }
}

/// With no predator within the evasion radius the evasion contribution is
/// exactly zero, the summed input is the own velocity, and a resting prey
/// stays at rest.
pub proof fn lemma_runaway_zero_case(x: Rat, ct: QuadTree, cfg: Config)
    requires
        near_seq(
            ct,
            x.animal.id,
            x.animal.position,
            cfg.runaway_radius as int,
            cfg.width as int,
            cfg.height as int,
        ).len() == 0,
    ensures
        runaway_vec_x(x, ct, cfg) == 0 && runaway_vec_y(x, ct, cfg) == 0,
        rat_combined_x(x, ct, cfg) == x.animal.velocity.x,
        rat_combined_y(x, ct, cfg) == x.animal.velocity.y,
        x.animal.velocity.x == 0 && x.animal.velocity.y == 0 ==> rat_next_vel_x(x, ct, cfg)
            == x.animal.velocity.x && rat_next_vel_y(x, ct, cfg) == x.animal.velocity.y,
{
}

/// One whole-population prey tick: the prey already in a predator's reach
/// are removed, some stepped intermediate relates every survivor to its
/// evasion step, and the output is one lifecycle pass over it.
pub open spec fn rats_ticked(pre: Seq<Rat>, post: Seq<Rat>, ct: QuadTree, cfg: Config) -> bool {
    exists|stepped: Seq<Rat>|
        {
            &&& stepped.len() == alive_rats(pre, ct, cfg).len()
            &&& (forall|i: int|
                0 <= i < stepped.len() ==> rat_step_rel(
                    alive_rats(pre, ct, cfg)[i],
                    #[trigger] stepped[i],
                    ct,
                    cfg,
                ))
            &&& rat_brood(stepped, post, cfg)
        }
}

} // verus!
