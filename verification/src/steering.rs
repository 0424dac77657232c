//! The shared steering primitives: collecting neighbors from a spatial
//! index and turning them into a normalized average direction.
//!
//! A steering contribution is the unit vector (at `SCALE` steps) of the
//! average toroidal offset toward a set of neighbors, or of their average
//! velocity, later scaled by a species weight. Averages are exact integer
//! sums divided with truncation toward zero.

use vstd::prelude::*;
use crate::config::{Config, SCALE, PLANE_LIMIT};
use crate::pvector::{PVector, abs_val, norm_x, bounded, in_plane, wrap_offset};
use crate::quad_tree::{QuadTree, AgentSnap, hit};
use crate::seq_lemmas::{lemma_filter_none, lemma_filter_push, lemma_filter_subset};

verus! {

/// Quotient of `a` by `b`, rounded toward zero.
pub open spec fn div_trunc(a: int, b: int) -> int {
    if a >= 0 {
        a / b
    } else {
        -((-a) / b)
    }
}

/// Sum over `s` of the nearest x-offsets from `q` to each position.
pub open spec fn sum_off_x(q: PVector, s: Seq<AgentSnap>, m: int) -> int
    decreases s.len(),
{
    if s.len() == 0 {
        0
    } else {
        sum_off_x(q, s.drop_last(), m) + wrap_offset(q.x as int, s.last().position.x as int, m)
    }
}

/// Sum over `s` of the nearest y-offsets from `q` to each position.
pub open spec fn sum_off_y(q: PVector, s: Seq<AgentSnap>, m: int) -> int
    decreases s.len(),
{
    if s.len() == 0 {
        0
    } else {
        sum_off_y(q, s.drop_last(), m) + wrap_offset(q.y as int, s.last().position.y as int, m)
    }
}

/// Sum of the x velocity components of `s`.
pub open spec fn sum_vel_x(s: Seq<AgentSnap>) -> int
    decreases s.len(),
{
    if s.len() == 0 {
        0
    } else {
        sum_vel_x(s.drop_last()) + s.last().velocity.x
    }
}

/// Sum of the y velocity components of `s`.
pub open spec fn sum_vel_y(s: Seq<AgentSnap>) -> int
    decreases s.len(),
{
    if s.len() == 0 {
        0
    } else {
        sum_vel_y(s.drop_last()) + s.last().velocity.y
    }
}

/// The unit x-component (at `SCALE` steps) of the average offset from `q`
/// to the positions in `s`.
pub open spec fn dir_x(q: PVector, s: Seq<AgentSnap>, w: int, h: int) -> int {
    norm_x(
        div_trunc(sum_off_x(q, s, w), s.len() as int),
        div_trunc(sum_off_y(q, s, h), s.len() as int),
        SCALE as int,
    )
}

/// The unit y-component of the average offset from `q` to `s`.
pub open spec fn dir_y(q: PVector, s: Seq<AgentSnap>, w: int, h: int) -> int {
    norm_x(
        div_trunc(sum_off_y(q, s, h), s.len() as int),
        div_trunc(sum_off_x(q, s, w), s.len() as int),
        SCALE as int,
    )
}

/// The unit x-component of the average velocity of `s`.
pub open spec fn vel_dir_x(s: Seq<AgentSnap>) -> int {
    norm_x(
        div_trunc(sum_vel_x(s), s.len() as int),
        div_trunc(sum_vel_y(s), s.len() as int),
        SCALE as int,
    )
}

/// The unit y-component of the average velocity of `s`.
pub open spec fn vel_dir_y(s: Seq<AgentSnap>) -> int {
    norm_x(
        div_trunc(sum_vel_y(s), s.len() as int),
        div_trunc(sum_vel_x(s), s.len() as int),
        SCALE as int,
    )
}

/// The neighbors an agent steers by: every member of the index within
/// `radius` of `pos`, the agent itself excluded by identity.
pub open spec fn near_seq(t: QuadTree, id: u64, pos: PVector, radius: int, w: int, h: int) -> Seq<
    AgentSnap,
> {
    t.members().filter(|m: AgentSnap| hit(m, pos, radius, w, h)).filter(
        |m: AgentSnap| m.id != id,
    )
}

/// Every member of the index has its position on the plane and its velocity
/// within the arithmetic bounds; what steering needs of a snapshot list.
pub open spec fn snaps_ok(s: Seq<AgentSnap>, w: int, h: int) -> bool {
    forall|i: int|
        0 <= i < s.len() ==> in_plane((#[trigger] s[i]).position, w, h) && bounded(
            s[i].velocity,
            2_000_000,
        )
}

/// The index is ready for steering queries: well formed, covering the
/// whole plane of `cfg`, with sound member snapshots.
pub open spec fn tree_ready(t: QuadTree, cfg: Config) -> bool {
    &&& t.wf()
    &&& t.rect().x == 0
    &&& t.rect().y == 0
    &&& t.rect().x + t.rect().width <= cfg.width
    &&& t.rect().y + t.rect().height <= cfg.height
    &&& snaps_ok(t.members(), cfg.width as int, cfg.height as int)
}

/// Collect the neighbors within `radius` of `pos`, excluding the querying
/// agent itself by identity, exactly `near_seq` in tree order.
pub fn collect_near_pvectors(
    t: &QuadTree,
    id: u64,
    pos: &PVector,
    radius: i64,
    cfg: &Config,
) -> (found: Vec<AgentSnap>)
    requires
        cfg.valid(),
        tree_ready(*t, *cfg),
        in_plane(*pos, cfg.width as int, cfg.height as int),
        0 <= radius <= PLANE_LIMIT,
    ensures
        found@ == near_seq(*t, id, *pos, radius as int, cfg.width as int, cfg.height as int),
        snaps_ok(found@, cfg.width as int, cfg.height as int),
{
    let within = t.search(pos, radius, cfg.width, cfg.height);
    let ghost hit_pred = |m: AgentSnap| hit(m, *pos, radius as int, cfg.width as int, cfg.height as int);
    let ghost id_pred = |m: AgentSnap| m.id != id;
    let mut found: Vec<AgentSnap> = Vec::new();
    proof {
        assert(within@.take(0) =~= Seq::<AgentSnap>::empty());
        lemma_filter_none(within@.take(0), id_pred);
    }
    let n = within.len();
    for i in 0..n
        invariant
            n == within@.len(),
            found@ == within@.take(i as int).filter(id_pred),
            id_pred == (|m: AgentSnap| m.id != id),
    {
        proof {
            lemma_filter_push(within@.take(i as int), within@[i as int], id_pred);
            assert(within@.take(i + 1 as int) =~= within@.take(i as int).push(within@[i as int]));
        }
        if within[i].id != id {
            found.push(within[i]);
        }
    }
    proof {
        assert(within@.take(n as int) =~= within@);
        let members = t.members();
        lemma_filter_subset(members, hit_pred);
        lemma_filter_subset(members.filter(hit_pred), id_pred);
        assert forall|i: int| 0 <= i < found@.len() implies in_plane(
            #[trigger] found@[i].position,
            cfg.width as int,
            cfg.height as int,
        ) && bounded(found@[i].velocity, 2_000_000) by {
            assert(found@.contains(found@[i]));
            assert(members.filter(hit_pred).contains(found@[i]));
            assert(members.contains(found@[i]));
            let j = choose|j: int| 0 <= j < members.len() && members[j] == found@[i];
        }
    }
    found
}

/// Sums of x-offsets between on-plane points stay within `len` times the
/// circumference.
proof fn lemma_sum_off_x_bound(q: PVector, s: Seq<AgentSnap>, m: int)
    requires
        0 < m <= PLANE_LIMIT,
        0 <= q.x < m,
        forall|i: int| 0 <= i < s.len() ==> 0 <= (#[trigger] s[i]).position.x < m,
    ensures
        abs_val(sum_off_x(q, s, m)) <= s.len() * m,
    decreases s.len(),
{
    if s.len() > 0 {
        assert(s[s.len() - 1] == s.last());
        lemma_sum_off_x_bound(q, s.drop_last(), m);
        assert((s.len() - 1) * m + m == s.len() * m) by (nonlinear_arith);
    }
}

/// Sums of y-offsets between on-plane points stay within `len` times the
/// circumference.
proof fn lemma_sum_off_y_bound(q: PVector, s: Seq<AgentSnap>, m: int)
    requires
        0 < m <= PLANE_LIMIT,
        0 <= q.y < m,
        forall|i: int| 0 <= i < s.len() ==> 0 <= (#[trigger] s[i]).position.y < m,
    ensures
        abs_val(sum_off_y(q, s, m)) <= s.len() * m,
    decreases s.len(),
{
    if s.len() > 0 {
        assert(s[s.len() - 1] == s.last());
        lemma_sum_off_y_bound(q, s.drop_last(), m);
        assert((s.len() - 1) * m + m == s.len() * m) by (nonlinear_arith);
    }
}

/// Sums of bounded velocities stay within `len` times the bound.
proof fn lemma_sum_vel_bound(s: Seq<AgentSnap>, b: int)
    requires
        0 <= b,
        forall|i: int| 0 <= i < s.len() ==> bounded((#[trigger] s[i]).velocity, b),
    ensures
        abs_val(sum_vel_x(s)) <= s.len() * b,
        abs_val(sum_vel_y(s)) <= s.len() * b,
    decreases s.len(),
{
    if s.len() > 0 {
        assert(s[s.len() - 1] == s.last());
        lemma_sum_vel_bound(s.drop_last(), b);
        assert((s.len() - 1) * b + b == s.len() * b) by (nonlinear_arith);
    }
}

/// The truncated average of values bounded by `b` is bounded by `b`.
proof fn lemma_avg_bound(sum: int, n: int, b: int)
    requires
        1 <= n,
        0 <= b,
        abs_val(sum) <= n * b,
    ensures
        abs_val(div_trunc(sum, n)) <= b,
{
    if sum >= 0 {
        assert(sum / n <= b) by (nonlinear_arith)
            requires
                1 <= n,
                0 <= sum <= n * b,
        ;
        assert(sum / n >= 0) by (nonlinear_arith)
            requires
                1 <= n,
                0 <= sum,
        ;
    } else {
        assert((-sum) / n <= b) by (nonlinear_arith)
            requires
                1 <= n,
                0 <= -sum <= n * b,
        ;
        assert((-sum) / n >= 0) by (nonlinear_arith)
            requires
                1 <= n,
                0 <= -sum,
        ;
    }
}

/// The unit vector of the average nearest offset from `q` to the positions
/// in `animals`: the direction toward their centroid.
pub fn calculate_direction(q: &PVector, animals: &Vec<AgentSnap>, cfg: &Config) -> (r: PVector)
    requires
        cfg.valid(),
        in_plane(*q, cfg.width as int, cfg.height as int),
        animals@.len() > 0,
        snaps_ok(animals@, cfg.width as int, cfg.height as int),
    ensures
        r.x == dir_x(*q, animals@, cfg.width as int, cfg.height as int),
        r.y == dir_y(*q, animals@, cfg.width as int, cfg.height as int),
        bounded(r, SCALE as int),
{
    let mut ax: i128 = 0;
    let mut ay: i128 = 0;
    let n = animals.len();
    for i in 0..n
        invariant
            n == animals@.len(),
            cfg.valid(),
            in_plane(*q, cfg.width as int, cfg.height as int),
            snaps_ok(animals@, cfg.width as int, cfg.height as int),
            ax == sum_off_x(*q, animals@.take(i as int), cfg.width as int),
            ay == sum_off_y(*q, animals@.take(i as int), cfg.height as int),
            abs_val(ax as int) <= i * PLANE_LIMIT,
            abs_val(ay as int) <= i * PLANE_LIMIT,
    {
        let o = q.offset(&animals[i].position, cfg.width, cfg.height);
        proof {
            assert(animals@.take(i + 1 as int).drop_last() =~= animals@.take(i as int));
            assert((i + 1) * PLANE_LIMIT == i * PLANE_LIMIT + PLANE_LIMIT) by (nonlinear_arith);
        }
        ax = ax + o.x as i128;
        ay = ay + o.y as i128;
    }
    proof {
        assert(animals@.take(n as int) =~= animals@);
        lemma_sum_off_x_bound(*q, animals@, cfg.width as int);
        lemma_sum_off_y_bound(*q, animals@, cfg.height as int);
        lemma_avg_bound(ax as int, n as int, PLANE_LIMIT as int);
        lemma_avg_bound(ay as int, n as int, PLANE_LIMIT as int);
    }
    let vx = div_i128(ax, n as i128);
    let vy = div_i128(ay, n as i128);
    let avg = PVector { x: vx, y: vy };
    avg.normalize()
}

/// The unit vector of the average velocity of `animals`: the direction the
/// group is heading.
pub fn add_velocity(animals: &Vec<AgentSnap>, cfg: &Config) -> (r: PVector)
    requires
        cfg.valid(),
        animals@.len() > 0,
        snaps_ok(animals@, cfg.width as int, cfg.height as int),
    ensures
        r.x == vel_dir_x(animals@),
        r.y == vel_dir_y(animals@),
        bounded(r, SCALE as int),
{
    let mut ax: i128 = 0;
    let mut ay: i128 = 0;
    let n = animals.len();
    for i in 0..n
        invariant
            n == animals@.len(),
            snaps_ok(animals@, cfg.width as int, cfg.height as int),
            ax == sum_vel_x(animals@.take(i as int)),
            ay == sum_vel_y(animals@.take(i as int)),
            abs_val(ax as int) <= i * 2_000_000,
            abs_val(ay as int) <= i * 2_000_000,
    {
        proof {
            assert(animals@.take(i + 1 as int).drop_last() =~= animals@.take(i as int));
            assert((i + 1) * 2_000_000 == i * 2_000_000 + 2_000_000) by (nonlinear_arith);
            assert(bounded(animals@[i as int].velocity, 2_000_000));
        }
        ax = ax + animals[i].velocity.x as i128;
        ay = ay + animals[i].velocity.y as i128;
    }
    proof {
        assert(animals@.take(n as int) =~= animals@);
        lemma_sum_vel_bound(animals@, 2_000_000);
        lemma_avg_bound(ax as int, n as int, 2_000_000);
        lemma_avg_bound(ay as int, n as int, 2_000_000);
    }
    let vx = div_i128(ax, n as i128);
    let vy = div_i128(ay, n as i128);
    let avg = PVector { x: vx, y: vy };
    avg.normalize()
}

/// Truncating division of a bounded wide sum by a positive count.
fn div_i128(a: i128, b: i128) -> (r: i64)
    requires
        1 <= b <= 0x1_0000_0000_0000_0000i128,
        abs_val(a as int) <= b * PLANE_LIMIT,
    ensures
        r == div_trunc(a as int, b as int),
        abs_val(r as int) <= PLANE_LIMIT,
{
    proof {
        lemma_avg_bound(a as int, b as int, PLANE_LIMIT as int);
        assert(b * PLANE_LIMIT <= 0x1_0000_0000_0000_0000i128 * 2_000_000i128)
            by (nonlinear_arith)
            requires
                1 <= b <= 0x1_0000_0000_0000_0000i128,
                PLANE_LIMIT == 2_000_000i64,
        ;
    }
    if a >= 0 {
        (a / b) as i64
    } else {
        -((-a / b) as i64)
    }
}

} // verus!
