//! The whole ecosystem: both populations, the per-tick indexes built from
//! the previous tick, and the drivers that advance ticks and generations.
//!
//! Every tick reads only the frozen previous-tick indexes, then installs
//! the new populations and rebuilds both indexes wholesale: no agent ever
//! observes a half-updated neighbor.

use vstd::prelude::*;
use crate::config::Config;
use crate::pvector::{PVector, bounded, in_plane};
use crate::quad_tree::{QuadTree, AgentSnap};
use crate::animal::snap_of;
use crate::cat::{
    Cat, cats_ticked, next_gen_rel, sum_chase, sum_separate, sum_align, sum_cohension,
    cat_ids_distinct, cat_ids_below,
};
use crate::rat::{Rat, rats_ticked, is_rat_child, rat_ids_distinct, rat_ids_below};
use crate::rng::{RandomSource, IdGen};
use crate::steering::{tree_ready, div_trunc};
use crate::seq_lemmas::lemma_multiset_property;

verus! {

/// The per-generation summary of the predators' mean steering weights.
#[derive(Clone, Copy, PartialEq, Eq, Structural, Debug)]
pub struct GenerationStats {
    pub chase: i64,
    pub align: i64,
    pub cohension: i64,
    pub separate: i64,
}

/// One tick's worth of agent snapshots, for a renderer.
pub struct TickFrame {
    pub cats: Vec<AgentSnap>,
    pub rats: Vec<AgentSnap>,
}

/// The snapshot a population contributes to its spatial index.
pub open spec fn cat_snaps(cats: Seq<Cat>) -> Seq<AgentSnap> {
    cats.map_values(|c: Cat| snap_of(c.animal))
}

/// The snapshot the prey population contributes to its spatial index.
pub open spec fn rat_snaps(rats: Seq<Rat>) -> Seq<AgentSnap> {
    rats.map_values(|x: Rat| snap_of(x.animal))
}

/// Consecutive worlds in `ws` are one tick apart: each next pair of
/// populations follows from the earlier world's populations against its
/// frozen indexes.
pub open spec fn tick_chain(ws: Seq<World>, cfg: Config) -> bool {
    forall|i: int|
        0 <= i < ws.len() - 1 ==> cats_ticked(
            (#[trigger] ws[i]).cats@,
            ws[i + 1].cats@,
            ws[i].cats_tree,
            ws[i].rats_tree,
            cfg,
        ) && rats_ticked(ws[i].rats@, ws[i + 1].rats@, ws[i].cats_tree, cfg)
}

/// The ecosystem state.
pub struct World {
    pub cfg: Config,
    pub cats: Vec<Cat>,
    pub rats: Vec<Rat>,
    pub cats_tree: QuadTree,
    pub rats_tree: QuadTree,
    pub rng: RandomSource,
    pub ids: IdGen,
}

impl World {
    /// The running invariant: both populations are sound and alive, and
    /// each index is a well-formed full-plane tree holding exactly the
    /// snapshots of its population.
    pub open spec fn wf(self) -> bool {
        &&& self.cfg.valid()
        &&& forall|i: int|
            0 <= i < self.cats@.len() ==> (#[trigger] self.cats@[i]).ok(self.cfg)
                && self.cats@[i].animal.energy >= 1
        &&& forall|i: int|
            0 <= i < self.rats@.len() ==> (#[trigger] self.rats@[i]).ok(self.cfg)
                && self.rats@[i].animal.energy >= 1
        &&& tree_ready(self.cats_tree, self.cfg)
        &&& tree_ready(self.rats_tree, self.cfg)
        &&& self.cats_tree.celled(self.cfg.min_cell_width as int)
        &&& self.rats_tree.celled(self.cfg.min_cell_width as int)
        &&& self.cats_tree.members().to_multiset() == cat_snaps(self.cats@).to_multiset()
        &&& self.rats_tree.members().to_multiset() == rat_snaps(self.rats@).to_multiset()
        &&& cat_ids_distinct(self.cats@)
        &&& rat_ids_distinct(self.rats@)
        &&& forall|i: int, j: int|
            0 <= i < self.cats@.len() && 0 <= j < self.rats@.len() ==> (
            #[trigger] self.cats@[i]).animal.id != (#[trigger] self.rats@[j]).animal.id
        &&& cat_ids_below(self.cats@, self.ids.next as int)
        &&& rat_ids_below(self.rats@, self.ids.next as int)
    }

    /// A fresh ecosystem: the configured number of random predators and
    /// prey, indexes built from them, a generator seeded for replay.
    pub fn new(cfg: Config, seed: u64) -> (w: World)
        requires
            cfg.valid(),
        ensures
            w.wf(),
            w.cfg == cfg,
            w.cats@.len() == cfg.cat_count,
            w.rats@.len() == cfg.rat_count,
    {
        let mut rng = RandomSource::new(seed);
        let mut ids = IdGen::new();
        let cats = new_cats(&cfg, &mut rng, &mut ids);
        let rats = new_rats(&cfg, &mut rng, &mut ids);
        let cats_tree = build_cat_tree(&cats, &cfg);
        let rats_tree = build_rat_tree(&rats, &cfg);
        World { cfg, cats, rats, cats_tree, rats_tree, rng, ids }
    }

    /// The generation is over: the prey are exhausted.
    pub fn is_finished(&self) -> (r: bool)
        ensures
            r == (self.rats@.len() == 0),
    {
        self.rats.len() == 0
    }

    /// One discrete tick: both populations step against the frozen
    /// previous-tick indexes, the results are installed, and both indexes
    /// are rebuilt. Returns whether the generation just finished.
    pub fn update(&mut self) -> (finished: bool)
        requires
            old(self).wf(),
            old(self).ids.next <= u64::MAX - old(self).cats@.len() - old(self).rats@.len(),
        ensures
            final(self).wf(),
            final(self).cfg == old(self).cfg,
            cats_ticked(
                old(self).cats@,
                final(self).cats@,
                old(self).cats_tree,
                old(self).rats_tree,
                old(self).cfg,
            ),
            rats_ticked(old(self).rats@, final(self).rats@, old(self).cats_tree, old(self).cfg),
            finished == (final(self).rats@.len() == 0),
    {
        let new_cats = Cat::next_states(
            &self.cats,
            &self.cats_tree,
            &self.rats_tree,
            &self.cfg,
            &mut self.rng,
            &mut self.ids,
        );
        let new_rats = Rat::next_states(
            &self.rats,
            &self.cats_tree,
            &self.cfg,
            &mut self.rng,
            &mut self.ids,
        );
        self.cats = new_cats;
        self.rats = new_rats;
        proof {
            let pre = *old(self);
            let mid = pre.ids.next + pre.cats@.len();
            assert forall|i: int, j: int|
                0 <= i < self.cats@.len() && 0 <= j < self.rats@.len() implies (
            #[trigger] self.cats@[i]).animal.id != (#[trigger] self.rats@[j]).animal.id by {
                let ci = self.cats@[i].animal.id as int;
                let rj = self.rats@[j].animal.id as int;
                if ci < pre.ids.next && rj < mid {
                    let a = choose|a: int|
                        0 <= a < pre.cats@.len() && (#[trigger] pre.cats@[a]).animal.id
                            == self.cats@[i].animal.id;
                    if rj < pre.ids.next {
                        let b = choose|b: int|
                            0 <= b < pre.rats@.len() && (#[trigger] pre.rats@[b]).animal.id
                                == self.rats@[j].animal.id;
                        assert(pre.cats@[a].animal.id != pre.rats@[b].animal.id);
                    }
                }
            }
        }
        self.cats_tree = build_cat_tree(&self.cats, &self.cfg);
        self.rats_tree = build_rat_tree(&self.rats, &self.cfg);
        self.rats.len() == 0
    }

    /// The generation boundary: selection and mutation replace the
    /// predators, and a full fresh prey population is installed; both
    /// indexes are rebuilt.
    pub fn next_generation(&mut self)
        requires
            old(self).wf(),
            old(self).ids.next <= u64::MAX - old(self).cfg.breed_count - old(
                self,
            ).cfg.rat_count,
        ensures
            final(self).wf(),
            final(self).cfg == old(self).cfg,
            next_gen_rel(old(self).cats@, final(self).cats@, old(self).cfg),
            final(self).rats@.len() == old(self).cfg.rat_count,
            forall|i: int|
                0 <= i < final(self).rats@.len() ==> is_rat_child(
                    #[trigger] final(self).rats@[i],
                    old(self).cfg,
                ),
    {
        let new_cats = Cat::next_generation(&self.cats, &self.cfg, &mut self.rng, &mut self.ids);
        let new_rats = new_rats(&self.cfg, &mut self.rng, &mut self.ids);
        self.cats = new_cats;
        self.rats = new_rats;
        self.cats_tree = build_cat_tree(&self.cats, &self.cfg);
        self.rats_tree = build_rat_tree(&self.rats, &self.cfg);
    }

    /// Drive ticks until the generation finishes, the configured tick
    /// bound runs out, or the identity space nears exhaustion. Returns the
    /// ticks taken and one frame of snapshots per tick, for a renderer:
    /// some chain of worlds, one tick apart, leads from the starting state
    /// to the final one, each frame showing the world after its tick, and
    /// the run stops only for one of the three reasons above.
    pub fn run_generation(&mut self) -> (r: (usize, Vec<TickFrame>))
        requires
            old(self).wf(),
        ensures
            final(self).wf(),
            final(self).cfg == old(self).cfg,
            r.0 <= old(self).cfg.max_ticks,
            r.1@.len() == r.0,
            exists|ws: Seq<World>|
                {
                    &&& ws.len() == r.0 + 1
                    &&& ws[0] == *old(self)
                    &&& ws[r.0 as int] == *final(self)
                    &&& tick_chain(ws, old(self).cfg)
                    &&& (forall|i: int| 0 < i < r.0 ==> (#[trigger] ws[i]).rats@.len() > 0)
                    &&& (forall|i: int|
                        0 <= i < r.0 ==> (#[trigger] r.1@[i]).cats@ == cat_snaps(ws[i + 1].cats@)
                            && r.1@[i].rats@ == rat_snaps(ws[i + 1].rats@))
                },
            final(self).rats@.len() == 0 || r.0 == old(self).cfg.max_ticks
                || final(self).ids.next + final(self).cats@.len() + final(self).rats@.len()
                > u64::MAX,
    {
        let mut t: usize = 0;
        let mut frames: Vec<TickFrame> = Vec::new();
        let ghost mut ws: Seq<World> = seq![*old(self)];
        let bound = self.cfg.max_ticks;
        while t < bound
            invariant
                self.wf(),
                self.cfg == old(self).cfg,
                bound == old(self).cfg.max_ticks,
                t <= bound,
                frames@.len() == t,
                ws.len() == t + 1,
                ws[0] == *old(self),
                ws[t as int] == *self,
                tick_chain(ws, old(self).cfg),
                forall|i: int| 0 < i < t ==> (#[trigger] ws[i]).rats@.len() > 0,
                t > 0 ==> self.rats@.len() > 0,
                forall|i: int|
                    0 <= i < t ==> (#[trigger] frames@[i]).cats@ == cat_snaps(ws[i + 1].cats@)
                        && frames@[i].rats@ == rat_snaps(ws[i + 1].rats@),
            decreases bound - t,
        {
            let cat_len = self.cats.len() as u64;
            let rat_len = self.rats.len() as u64;
            if !(self.ids.next <= u64::MAX - cat_len && cat_len <= u64::MAX - rat_len
                && self.ids.next <= u64::MAX - cat_len - rat_len) {
                proof {
                    let ghost w = ws;
                    assert(w.len() == t + 1 && w[0] == *old(self) && w[t as int] == *self
                        && tick_chain(w, old(self).cfg) && (forall|i: int|
                        0 < i < t ==> (#[trigger] w[i]).rats@.len() > 0) && (forall|i: int|
                        0 <= i < t ==> (#[trigger] frames@[i]).cats@ == cat_snaps(w[i + 1].cats@)
                            && frames@[i].rats@ == rat_snaps(w[i + 1].rats@)));
                }
                return (t, frames);
            }
            let ghost pre = *self;
            let ghost prev_ws = ws;
            let finished = self.update();
            frames.push(TickFrame {
                cats: cat_snaps_exec(&self.cats),
                rats: rat_snaps_exec(&self.rats),
            });
            proof {
                ws = ws.push(*self);
                assert forall|i: int| 0 <= i < ws.len() - 1 implies cats_ticked(
                    (#[trigger] ws[i]).cats@,
                    ws[i + 1].cats@,
                    ws[i].cats_tree,
                    ws[i].rats_tree,
                    old(self).cfg,
                ) && rats_ticked(ws[i].rats@, ws[i + 1].rats@, ws[i].cats_tree, old(self).cfg) by {
                    if i < prev_ws.len() - 1 {
                        assert(ws[i] == prev_ws[i] && ws[i + 1] == prev_ws[i + 1]);
                    } else {
                        assert(ws[i] == pre && ws[i + 1] == *self);
                    }
                }
            }
            t = t + 1;
            if finished {
                proof {
                    let ghost w = ws;
                    assert(w.len() == t + 1 && w[0] == *old(self) && w[t as int] == *self
                        && tick_chain(w, old(self).cfg) && (forall|i: int|
                        0 < i < t ==> (#[trigger] w[i]).rats@.len() > 0) && (forall|i: int|
                        0 <= i < t ==> (#[trigger] frames@[i]).cats@ == cat_snaps(w[i + 1].cats@)
                            && frames@[i].rats@ == rat_snaps(w[i + 1].rats@)));
                }
                return (t, frames);
            }
        }
        proof {
            let ghost w = ws;
            assert(w.len() == t + 1 && w[0] == *old(self) && w[t as int] == *self && tick_chain(
                w,
                old(self).cfg,
            ) && (forall|i: int| 0 < i < t ==> (#[trigger] w[i]).rats@.len() > 0) && (forall|
                i: int,
            |
                0 <= i < t ==> (#[trigger] frames@[i]).cats@ == cat_snaps(w[i + 1].cats@)
                    && frames@[i].rats@ == rat_snaps(w[i + 1].rats@)));
        }
        (t, frames)
    }

    /// The per-generation summary line: the mean of each steering weight
    /// over the current predators.
    pub fn summary_statistics(&self) -> (r: GenerationStats)
        requires
            self.wf(),
            self.cats@.len() > 0,
        ensures
            r.chase == div_trunc(sum_chase(self.cats@), self.cats@.len() as int),
            r.align == div_trunc(sum_align(self.cats@), self.cats@.len() as int),
            r.cohension == div_trunc(sum_cohension(self.cats@), self.cats@.len() as int),
            r.separate == div_trunc(sum_separate(self.cats@), self.cats@.len() as int),
    {
        GenerationStats {
            chase: chase_average(&self.cats),
            align: align_average(&self.cats),
            cohension: cohension_average(&self.cats),
            separate: separate_average(&self.cats),
        }
    }
}

/// The first generation's predators: the configured count of fresh random
/// ones.
pub fn new_cats(cfg: &Config, rng: &mut RandomSource, ids: &mut IdGen) -> (r: Vec<Cat>)
    requires
        cfg.valid(),
        old(ids).next <= u64::MAX - cfg.cat_count,
    ensures
        r@.len() == cfg.cat_count,
        forall|i: int|
            0 <= i < r@.len() ==> (#[trigger] r@[i]).ok(*cfg) && r@[i].animal.energy
                == cfg.energy_max && r@[i].ate == 0,
        final(ids).next == old(ids).next + cfg.cat_count,
        forall|i: int| 0 <= i < r@.len() ==> (#[trigger] r@[i]).animal.id == old(ids).next + i,
{
    let mut out: Vec<Cat> = Vec::new();
    let ghost start = ids.next;
    let n = cfg.cat_count;
    for i in 0..n
        invariant
            n == cfg.cat_count,
            cfg.valid(),
            out@.len() == i,
            forall|j: int|
                0 <= j < out@.len() ==> (#[trigger] out@[j]).ok(*cfg) && out@[j].animal.energy
                    == cfg.energy_max && out@[j].ate == 0,
            ids.next == start + i,
            start <= u64::MAX - n,
            forall|j: int| 0 <= j < out@.len() ==> (#[trigger] out@[j]).animal.id == start + j,
    {
        let c = Cat::new(cfg, rng, ids);
        out.push(c);
    }
    out
}

/// A generation's prey: the configured count of fresh random ones.
pub fn new_rats(cfg: &Config, rng: &mut RandomSource, ids: &mut IdGen) -> (r: Vec<Rat>)
    requires
        cfg.valid(),
        old(ids).next <= u64::MAX - cfg.rat_count,
    ensures
        r@.len() == cfg.rat_count,
        forall|i: int|
            0 <= i < r@.len() ==> is_rat_child(#[trigger] r@[i], *cfg) && r@[i].animal.energy
                == cfg.energy_max,
        final(ids).next == old(ids).next + cfg.rat_count,
        forall|i: int| 0 <= i < r@.len() ==> (#[trigger] r@[i]).animal.id == old(ids).next + i,
{
    let mut out: Vec<Rat> = Vec::new();
    let ghost start = ids.next;
    let n = cfg.rat_count;
    for i in 0..n
        invariant
            n == cfg.rat_count,
            cfg.valid(),
            out@.len() == i,
            forall|j: int|
                0 <= j < out@.len() ==> is_rat_child(#[trigger] out@[j], *cfg)
                    && out@[j].animal.energy == cfg.energy_max,
            ids.next == start + i,
            start <= u64::MAX - n,
            forall|j: int| 0 <= j < out@.len() ==> (#[trigger] out@[j]).animal.id == start + j,
    {
        let x = Rat::new(cfg, rng, ids);
        out.push(x);
    }
    out
}

/// The snapshots of the predator population, in order.
fn cat_snaps_exec(cats: &Vec<Cat>) -> (r: Vec<AgentSnap>)
    ensures
        r@ == cat_snaps(cats@),
{
    let mut out: Vec<AgentSnap> = Vec::new();
    let n = cats.len();
    for i in 0..n
        invariant
            n == cats@.len(),
            out@ == cat_snaps(cats@.take(i as int)),
    {
        out.push(cats[i].as_snap());
        proof {
            assert(out@ =~= cat_snaps(cats@.take(i + 1 as int)));
        }
    }
    proof {
        assert(cats@.take(n as int) =~= cats@);
    }
    out
}

/// The snapshots of the prey population, in order.
fn rat_snaps_exec(rats: &Vec<Rat>) -> (r: Vec<AgentSnap>)
    ensures
        r@ == rat_snaps(rats@),
{
    let mut out: Vec<AgentSnap> = Vec::new();
    let n = rats.len();
    for i in 0..n
        invariant
            n == rats@.len(),
            out@ == rat_snaps(rats@.take(i as int)),
    {
        out.push(rats[i].as_snap());
        proof {
            assert(out@ =~= rat_snaps(rats@.take(i + 1 as int)));
        }
    }
    proof {
        assert(rats@.take(n as int) =~= rats@);
    }
    out
}

/// Build the predator index from the population.
pub fn build_cat_tree(cats: &Vec<Cat>, cfg: &Config) -> (t: QuadTree)
    requires
        cfg.valid(),
        forall|i: int| 0 <= i < cats@.len() ==> (#[trigger] cats@[i]).ok(*cfg),
    ensures
        tree_ready(t, *cfg),
        t.celled(cfg.min_cell_width as int),
        t.members().to_multiset() == cat_snaps(cats@).to_multiset(),
{
    let snaps = cat_snaps_exec(cats);
    proof {
        assert forall|i: int| 0 <= i < snaps@.len() implies in_plane(
            (#[trigger] snaps@[i]).position,
            cfg.width as int,
            cfg.height as int,
        ) && bounded(snaps@[i].velocity, 2_000_000) by {
            assert(snaps@[i] == snap_of(cats@[i].animal));
        }
    }
    let t = QuadTree::new(&snaps, cfg);
    proof {
        lemma_multiset_property(
            snaps@,
            t.members(),
            |m: AgentSnap| in_plane(m.position, cfg.width as int, cfg.height as int) && bounded(
                m.velocity,
                2_000_000,
            ),
        );
    }
    t
}

/// Build the prey index from the population.
pub fn build_rat_tree(rats: &Vec<Rat>, cfg: &Config) -> (t: QuadTree)
    requires
        cfg.valid(),
        forall|i: int| 0 <= i < rats@.len() ==> (#[trigger] rats@[i]).ok(*cfg),
    ensures
        tree_ready(t, *cfg),
        t.celled(cfg.min_cell_width as int),
        t.members().to_multiset() == rat_snaps(rats@).to_multiset(),
{
    let snaps = rat_snaps_exec(rats);
    proof {
        assert forall|i: int| 0 <= i < snaps@.len() implies in_plane(
            (#[trigger] snaps@[i]).position,
            cfg.width as int,
            cfg.height as int,
        ) && bounded(snaps@[i].velocity, 2_000_000) by {
            assert(snaps@[i] == snap_of(rats@[i].animal));
        }
    }
    let t = QuadTree::new(&snaps, cfg);
    proof {
        lemma_multiset_property(
            snaps@,
            t.members(),
            |m: AgentSnap| in_plane(m.position, cfg.width as int, cfg.height as int) && bounded(
                m.velocity,
                2_000_000,
            ),
        );
    }
    t
}

/// The mean chase weight of the population, truncated toward zero.
pub fn chase_average(cats: &Vec<Cat>) -> (r: i64)
    requires
        cats@.len() > 0,
        forall|i: int| 0 <= i < cats@.len() ==> 0 <= (#[trigger] cats@[i]).chase_weight <= 400_000,
    ensures
        r == div_trunc(sum_chase(cats@), cats@.len() as int),
{
    let mut acc: i128 = 0;
    let n = cats.len();
    for i in 0..n
        invariant
            n == cats@.len(),
            forall|j: int| 0 <= j < cats@.len() ==> 0 <= (#[trigger] cats@[j]).chase_weight <= 400_000,
            acc == sum_chase(cats@.take(i as int)),
            0 <= acc <= i * 400_000,
    {
        proof {
            assert(cats@.take(i + 1 as int).drop_last() =~= cats@.take(i as int));
            assert((i + 1) * 400_000 == i * 400_000 + 400_000) by (nonlinear_arith);
        }
        acc = acc + cats[i].chase_weight as i128;
    }
    proof {
        assert(cats@.take(n as int) =~= cats@);
    }
    crate::cat::weight_mean(acc, n)
}

/// The mean alignment weight of the population, truncated toward zero.
pub fn align_average(cats: &Vec<Cat>) -> (r: i64)
    requires
        cats@.len() > 0,
        forall|i: int| 0 <= i < cats@.len() ==> 0 <= (#[trigger] cats@[i]).align_weight <= 400_000,
    ensures
        r == div_trunc(sum_align(cats@), cats@.len() as int),
{
    let mut acc: i128 = 0;
    let n = cats.len();
    for i in 0..n
        invariant
            n == cats@.len(),
            forall|j: int| 0 <= j < cats@.len() ==> 0 <= (#[trigger] cats@[j]).align_weight <= 400_000,
            acc == sum_align(cats@.take(i as int)),
            0 <= acc <= i * 400_000,
    {
        proof {
            assert(cats@.take(i + 1 as int).drop_last() =~= cats@.take(i as int));
            assert((i + 1) * 400_000 == i * 400_000 + 400_000) by (nonlinear_arith);
        }
        acc = acc + cats[i].align_weight as i128;
    }
    proof {
        assert(cats@.take(n as int) =~= cats@);
    }
    crate::cat::weight_mean(acc, n)
}

/// The mean separation weight of the population, truncated toward zero.
pub fn separate_average(cats: &Vec<Cat>) -> (r: i64)
    requires
        cats@.len() > 0,
        forall|i: int| 0 <= i < cats@.len() ==> 0 <= (#[trigger] cats@[i]).separate_weight <= 400_000,
    ensures
        r == div_trunc(sum_separate(cats@), cats@.len() as int),
{
    let mut acc: i128 = 0;
    let n = cats.len();
    for i in 0..n
        invariant
            n == cats@.len(),
            forall|j: int| 0 <= j < cats@.len() ==> 0 <= (#[trigger] cats@[j]).separate_weight <= 400_000,
            acc == sum_separate(cats@.take(i as int)),
            0 <= acc <= i * 400_000,
    {
        proof {
            assert(cats@.take(i + 1 as int).drop_last() =~= cats@.take(i as int));
            assert((i + 1) * 400_000 == i * 400_000 + 400_000) by (nonlinear_arith);
        }
        acc = acc + cats[i].separate_weight as i128;
    }
    proof {
        assert(cats@.take(n as int) =~= cats@);
    }
    crate::cat::weight_mean(acc, n)
}

/// The mean cohesion weight of the population, truncated toward zero.
pub fn cohension_average(cats: &Vec<Cat>) -> (r: i64)
    requires
        cats@.len() > 0,
        forall|i: int| 0 <= i < cats@.len() ==> 0 <= (#[trigger] cats@[i]).cohension_weight <= 400_000,
    ensures
        r == div_trunc(sum_cohension(cats@), cats@.len() as int),
{
    let mut acc: i128 = 0;
    let n = cats.len();
    for i in 0..n
        invariant
            n == cats@.len(),
            forall|j: int| 0 <= j < cats@.len() ==> 0 <= (#[trigger] cats@[j]).cohension_weight <= 400_000,
            acc == sum_cohension(cats@.take(i as int)),
            0 <= acc <= i * 400_000,
    {
        proof {
            assert(cats@.take(i + 1 as int).drop_last() =~= cats@.take(i as int));
            assert((i + 1) * 400_000 == i * 400_000 + 400_000) by (nonlinear_arith);
        }
        acc = acc + cats[i].cohension_weight as i128;
    }
    proof {
        assert(cats@.take(n as int) =~= cats@);
    }
    crate::cat::weight_mean(acc, n)
}

/// In a well-formed world the prey index answers a radius query exactly as
/// a linear scan over the prey population would, and likewise for the
/// predator index: same snapshots, whatever the order.
pub proof fn lemma_world_search_is_scan(w: World, q: PVector, radius: int)
    requires
        w.wf(),
    ensures
        w.rats_tree.members().filter(
            |m: AgentSnap| crate::quad_tree::hit(m, q, radius, w.cfg.width as int, w.cfg.height as int),
        ).to_multiset() == rat_snaps(w.rats@).filter(
            |m: AgentSnap| crate::quad_tree::hit(m, q, radius, w.cfg.width as int, w.cfg.height as int),
        ).to_multiset(),
        w.cats_tree.members().filter(
            |m: AgentSnap| crate::quad_tree::hit(m, q, radius, w.cfg.width as int, w.cfg.height as int),
        ).to_multiset() == cat_snaps(w.cats@).filter(
            |m: AgentSnap| crate::quad_tree::hit(m, q, radius, w.cfg.width as int, w.cfg.height as int),
        ).to_multiset(),
{
    crate::quad_tree::lemma_search_matches_scan(
        w.rats_tree,
        rat_snaps(w.rats@),
        q,
        radius,
        w.cfg.width as int,
        w.cfg.height as int,
    );
    crate::quad_tree::lemma_search_matches_scan(
        w.cats_tree,
        cat_snaps(w.cats@),
        q,
        radius,
        w.cfg.width as int,
        w.cfg.height as int,
    );
}

} // verus!
