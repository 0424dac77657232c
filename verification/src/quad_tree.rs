//! Recursive quadrant index over the plane.
//!
//! A node is either a leaf holding an unordered membership list or a branch
//! holding exactly four children that partition its rectangle; the enum makes
//! "membership XOR children" structural. Regions are half-open
//! `[x, x + width) x [y, y + height)` rectangles, so the four quadrants of a
//! branch partition it exactly and every point of the plane descends into
//! exactly one child.
//!
//! The radius search filters by the exact toroidal distance and prunes by a
//! toroidal lower bound on the distance from the query point to a node's
//! rectangle, so pruning agrees with the steering geometry and the search
//! returns exactly what a linear scan over the members would.

use vstd::prelude::*;
use vstd::seq_lib::lemma_multiset_commutative;
use crate::seq_lemmas::{lemma_filter_none, lemma_filter_push, lemma_filter_subset};
use crate::pvector::{PVector, abs_val, sq, wrap_offset, dist2, in_plane};
use crate::config::{Config, PLANE_LIMIT};

verus! {

/// The smaller of two integers.
pub open spec fn min2(a: int, b: int) -> int {
    if a < b {
        a
    } else {
        b
    }
}

/// An axis-aligned half-open region `[x, x+width) x [y, y+height)` of the
/// plane. Regions never wrap.
#[derive(Clone, Copy, PartialEq, Eq, Structural, Debug)]
pub struct Rectangle {
    pub x: i64,
    pub y: i64,
    pub width: i64,
    pub height: i64,
}

/// The per-agent snapshot the index stores: identity, position and velocity
/// as of the tick the index was built from.
#[derive(Clone, Copy, PartialEq, Eq, Structural, Debug)]
pub struct AgentSnap {
    pub id: u64,
    pub position: PVector,
    pub velocity: PVector,
}

/// The rectangle's coordinates are nonnegative and it stays inside the
/// arithmetic bounds.
pub open spec fn rect_ok(r: Rectangle) -> bool {
    &&& 0 <= r.x
    &&& 0 <= r.y
    &&& 0 <= r.width
    &&& 0 <= r.height
    &&& r.x + r.width <= PLANE_LIMIT
    &&& r.y + r.height <= PLANE_LIMIT
}

/// `p` lies in the half-open region `r`.
pub open spec fn rect_contains(r: Rectangle, p: PVector) -> bool {
    &&& r.x <= p.x < r.x + r.width
    &&& r.y <= p.y < r.y + r.height
}

/// Quadrant `i` of `r`: `0` upper-left, `1` upper-right, `2` lower-left,
/// `3` lower-right. Widths `w` split as `w / 2` and `w - w / 2`, so the four
/// quadrants partition `r` exactly, also for odd sides.
pub open spec fn quarter(r: Rectangle, i: int) -> Rectangle {
    let w0 = (r.width / 2) as i64;
    let h0 = (r.height / 2) as i64;
    if i == 0 {
        Rectangle { x: r.x, y: r.y, width: w0, height: h0 }
    } else if i == 1 {
        Rectangle {
            x: (r.x + w0) as i64,
            y: r.y,
            width: (r.width - w0) as i64,
            height: h0,
        }
    } else if i == 2 {
        Rectangle {
            x: r.x,
            y: (r.y + h0) as i64,
            width: w0,
            height: (r.height - h0) as i64,
        }
    } else {
        Rectangle {
            x: (r.x + w0) as i64,
            y: (r.y + h0) as i64,
            width: (r.width - w0) as i64,
            height: (r.height - h0) as i64,
        }
    }
}

/// A node of the quadrant index: a leaf with a membership list, or a branch
/// with four children and no list.
pub enum QuadTree {
    Leaf { rectangle: Rectangle, animals: Vec<AgentSnap> },
    Branch {
        rectangle: Rectangle,
        c0: Box<QuadTree>,
        c1: Box<QuadTree>,
        c2: Box<QuadTree>,
        c3: Box<QuadTree>,
    },
}

impl QuadTree {
    /// The region this node covers.
    pub open spec fn rect(self) -> Rectangle {
        match self {
            QuadTree::Leaf { rectangle, .. } => rectangle,
            QuadTree::Branch { rectangle, .. } => rectangle,
        }
    }

    /// Every snapshot stored in this subtree, in depth-first order.
    pub open spec fn members(self) -> Seq<AgentSnap>
        decreases self,
    {
        match self {
            QuadTree::Leaf { animals, .. } => animals@,
            QuadTree::Branch { c0, c1, c2, c3, .. } => c0.members() + c1.members() + c2.members()
                + c3.members(),
        }
    }

    /// Geometric well-formedness: rectangles are in bounds, a branch's
    /// children cover exactly its four quadrants, and every member of a leaf
    /// lies inside the leaf's region.
    pub open spec fn wf(self) -> bool
        decreases self,
    {
        match self {
            QuadTree::Leaf { rectangle, animals } => rect_ok(rectangle) && forall|i: int|
                0 <= i < animals@.len() ==> rect_contains(rectangle, #[trigger] animals@[i].position),
            QuadTree::Branch { rectangle, c0, c1, c2, c3 } => {
                &&& rect_ok(rectangle)
                &&& c0.rect() == quarter(rectangle, 0)
                &&& c1.rect() == quarter(rectangle, 1)
                &&& c2.rect() == quarter(rectangle, 2)
                &&& c3.rect() == quarter(rectangle, 3)
                &&& c0.wf()
                &&& c1.wf()
                &&& c2.wf()
                &&& c3.wf()
            },
        }
    }

    /// The subdivision discipline: a region at least `min_cell` wide is a
    /// branch, a narrower one a leaf. Together with `wf` this fixes the
    /// depth of the tree for a given plane.
    pub open spec fn celled(self, min_cell: int) -> bool
        decreases self,
    {
        match self {
            QuadTree::Leaf { rectangle, .. } => rectangle.width < min_cell,
            QuadTree::Branch { rectangle, c0, c1, c2, c3 } => {
                &&& rectangle.width >= min_cell
                &&& c0.celled(min_cell)
                &&& c1.celled(min_cell)
                &&& c2.celled(min_cell)
                &&& c3.celled(min_cell)
            },
        }
    }

    /// `self` and `other` are the same arrangement of regions; only the
    /// membership lists may differ.
    pub open spec fn same_shape(self, other: QuadTree) -> bool
        decreases self,
    {
        match (self, other) {
            (
                QuadTree::Leaf { rectangle: r1, .. },
                QuadTree::Leaf { rectangle: r2, .. },
            ) => r1 == r2,
            (
                QuadTree::Branch { rectangle: r1, c0, c1, c2, c3 },
                QuadTree::Branch { rectangle: r2, c0: d0, c1: d1, c2: d2, c3: d3 },
            ) => r1 == r2 && c0.same_shape(*d0) && c1.same_shape(*d1) && c2.same_shape(*d2)
                && c3.same_shape(*d3),
            _ => false,
        }
    }
}

/// Quadrants lie inside their parent and keep its arithmetic bounds.
proof fn lemma_quarter_ok(r: Rectangle, i: int)
    requires
        rect_ok(r),
        0 <= i < 4,
    ensures
        rect_ok(quarter(r, i)),
        forall|p: PVector| rect_contains(#[trigger] quarter(r, i), p) ==> rect_contains(r, p),
{
}

/// The four quadrants partition their parent: a point of the parent lies in
/// exactly one of them.
proof fn lemma_quarter_partition(r: Rectangle, p: PVector)
    requires
        rect_ok(r),
        rect_contains(r, p),
    ensures
        exists|i: int|
            0 <= i < 4 && rect_contains(#[trigger] quarter(r, i), p),
        forall|i: int, j: int|
            0 <= i < 4 && 0 <= j < 4 && rect_contains(#[trigger] quarter(r, i), p) && rect_contains(
                #[trigger] quarter(r, j),
                p,
            ) ==> i == j,
{
    let w0 = r.width / 2;
    let h0 = r.height / 2;
    let i = (if p.x < r.x + w0 { 0int } else { 1int }) + (if p.y < r.y + h0 { 0int } else { 2int });
    assert(0 <= i < 4 && rect_contains(quarter(r, i), p));
}

/// Members of a well-formed subtree lie inside its region.
pub proof fn lemma_members_in_rect(t: QuadTree)
    requires
        t.wf(),
    ensures
        forall|i: int|
            0 <= i < t.members().len() ==> rect_contains(t.rect(), #[trigger] t.members()[i].position),
    decreases t,
{
    match t {
        QuadTree::Leaf { .. } => {},
        QuadTree::Branch { rectangle, c0, c1, c2, c3 } => {
            lemma_members_in_rect(*c0);
            lemma_members_in_rect(*c1);
            lemma_members_in_rect(*c2);
            lemma_members_in_rect(*c3);
            lemma_quarter_ok(rectangle, 0);
            lemma_quarter_ok(rectangle, 1);
            lemma_quarter_ok(rectangle, 2);
            lemma_quarter_ok(rectangle, 3);
            let m = t.members();
            let l0 = c0.members().len() as int;
            let l1 = c1.members().len() as int;
            let l2 = c2.members().len() as int;
            let l3 = c3.members().len() as int;
            assert forall|i: int| 0 <= i < m.len() implies rect_contains(
                t.rect(),
                #[trigger] m[i].position,
            ) by {
                if i < l0 {
                    assert(m[i] == c0.members()[i]);
                } else if i < l0 + l1 {
                    assert(m[i] == c1.members()[i - l0]);
                } else if i < l0 + l1 + l2 {
                    assert(m[i] == c2.members()[i - l0 - l1]);
                } else {
                    assert(m[i] == c3.members()[i - l0 - l1 - l2]);
                }
            }
        },
    }
}

impl Rectangle {
    /// `p` lies in this half-open region.
    pub fn is_inside(&self, p: &PVector) -> (r: bool)
        requires
            rect_ok(*self),
        ensures
            r == rect_contains(*self, *p),
    {
        self.x <= p.x && p.x < self.x + self.width && self.y <= p.y && p.y < self.y + self.height
    }

    /// Quadrant `num` of this region, executable form.
    pub fn child(&self, num: u8) -> (r: Rectangle)
        requires
            rect_ok(*self),
            num < 4,
        ensures
            r == quarter(*self, num as int),
    {
        let w0 = self.width / 2;
        let h0 = self.height / 2;
        let x = if num % 2 == 0 {
            self.x
        } else {
            self.x + w0
        };
        let y = if num / 2 == 0 {
            self.y
        } else {
            self.y + h0
        };
        let width = if num % 2 == 0 {
            w0
        } else {
            self.width - w0
        };
        let height = if num / 2 == 0 {
            h0
        } else {
            self.height - h0
        };
        Rectangle { x, y, width, height }
    }

    /// The whole plane of `cfg` as a region.
    pub fn whole_screen(cfg: &Config) -> (r: Rectangle)
        requires
            cfg.valid(),
        ensures
            r == (Rectangle { x: 0, y: 0, width: cfg.width, height: cfg.height }),
            rect_ok(r),
    {
        Rectangle { x: 0, y: 0, width: cfg.width, height: cfg.height }
    }
}

impl QuadTree {
    /// An empty index over `rect`: branches down to regions narrower than
    /// `min_cell`, leaves below.
    pub fn new_tree(rect: &Rectangle, min_cell: i64) -> (t: QuadTree)
        requires
            rect_ok(*rect),
            2 <= min_cell,
        ensures
            t.wf(),
            t.celled(min_cell as int),
            t.rect() == *rect,
            t.members() == Seq::<AgentSnap>::empty(),
        decreases rect.width,
    {
        if rect.width < min_cell {
            QuadTree::Leaf { rectangle: *rect, animals: Vec::new() }
        } else {
            proof {
                lemma_quarter_ok(*rect, 0);
                lemma_quarter_ok(*rect, 1);
                lemma_quarter_ok(*rect, 2);
                lemma_quarter_ok(*rect, 3);
            }
            let c0 = QuadTree::new_tree(&rect.child(0), min_cell);
            let c1 = QuadTree::new_tree(&rect.child(1), min_cell);
            let c2 = QuadTree::new_tree(&rect.child(2), min_cell);
            let c3 = QuadTree::new_tree(&rect.child(3), min_cell);
            let t = QuadTree::Branch {
                rectangle: *rect,
                c0: Box::new(c0),
                c1: Box::new(c1),
                c2: Box::new(c2),
                c3: Box::new(c3),
            };
            proof {
                assert(t.members() =~= Seq::<AgentSnap>::empty());
            }
            t
        }
    }

    /// Insert `animal`, descending to the leaf whose region holds its
    /// position; the members gain exactly that snapshot.
    pub fn append(self, animal: &AgentSnap) -> (t: QuadTree)
        requires
            self.wf(),
            rect_contains(self.rect(), animal.position),
        ensures
            t.wf(),
            self.same_shape(t),
            t.members().to_multiset() == self.members().to_multiset().insert(*animal),
        decreases self,
    {
        let ghost orig = self;
        match self {
            QuadTree::Leaf { rectangle, mut animals } => {
                let ghost before = animals@;
                animals.push(*animal);
                proof {
                    before.to_multiset_ensures();
                }
                QuadTree::Leaf { rectangle, animals }
            },
            QuadTree::Branch { rectangle, c0, c1, c2, c3 } => {
                proof {
                    lemma_quarter_partition(rectangle, animal.position);
                    lemma_same_shape_refl(*c0);
                    lemma_same_shape_refl(*c1);
                    lemma_same_shape_refl(*c2);
                    lemma_same_shape_refl(*c3);
                }
                let ghost m0 = c0.members();
                let ghost m1 = c1.members();
                let ghost m2 = c2.members();
                let ghost m3 = c3.members();
                if rectangle.child(0).is_inside(&animal.position) {
                    let n0 = Box::new((*c0).append(animal));
                    proof {
                        lemma_concat4_multiset(m0, m1, m2, m3);
                        lemma_concat4_multiset(n0.members(), m1, m2, m3);
                        assert(n0.members().to_multiset().add(m1.to_multiset()).add(
                            m2.to_multiset(),
                        ).add(m3.to_multiset()) =~= (m0 + m1 + m2 + m3).to_multiset().insert(
                            *animal,
                        ));
                    }
                    QuadTree::Branch { rectangle, c0: n0, c1, c2, c3 }
                } else if rectangle.child(1).is_inside(&animal.position) {
                    let n1 = Box::new((*c1).append(animal));
                    proof {
                        lemma_concat4_multiset(m0, m1, m2, m3);
                        lemma_concat4_multiset(m0, n1.members(), m2, m3);
                        assert(m0.to_multiset().add(n1.members().to_multiset()).add(
                            m2.to_multiset(),
                        ).add(m3.to_multiset()) =~= (m0 + m1 + m2 + m3).to_multiset().insert(
                            *animal,
                        ));
                    }
                    QuadTree::Branch { rectangle, c0, c1: n1, c2, c3 }
                } else if rectangle.child(2).is_inside(&animal.position) {
                    let n2 = Box::new((*c2).append(animal));
                    proof {
                        lemma_concat4_multiset(m0, m1, m2, m3);
                        lemma_concat4_multiset(m0, m1, n2.members(), m3);
                        assert(m0.to_multiset().add(m1.to_multiset()).add(
                            n2.members().to_multiset(),
                        ).add(m3.to_multiset()) =~= (m0 + m1 + m2 + m3).to_multiset().insert(
                            *animal,
                        ));
                    }
                    QuadTree::Branch { rectangle, c0, c1, c2: n2, c3 }
                } else {
                    let n3 = Box::new((*c3).append(animal));
                    proof {
                        lemma_concat4_multiset(m0, m1, m2, m3);
                        lemma_concat4_multiset(m0, m1, m2, n3.members());
                        assert(m0.to_multiset().add(m1.to_multiset()).add(m2.to_multiset()).add(
                            n3.members().to_multiset(),
                        ) =~= (m0 + m1 + m2 + m3).to_multiset().insert(*animal));
                    }
                    QuadTree::Branch { rectangle, c0, c1, c2, c3: n3 }
                }
            },
        }
    }
}

/// `m` is within `radius` of the query point `q`, by toroidal distance;
/// the predicate the radius search answers.
pub open spec fn hit(m: AgentSnap, q: PVector, radius: int, w: int, h: int) -> bool {
    dist2(q, m.position, w, h) < sq(radius)
}

/// The toroidal distance from `q` to the nearest point of the arc
/// `[lo, hi]` on a circle of circumference `m`; `0` inside the arc, else
/// attained at an endpoint.
pub open spec fn axis_gap(q: int, lo: int, hi: int, m: int) -> int {
    if lo <= q <= hi {
        0
    } else {
        min2(abs_val(wrap_offset(q, lo, m)), abs_val(wrap_offset(q, hi, m)))
    }
}

/// A lower bound on the toroidal squared distance from `q` to any point of
/// the region `r` on the `w x h` plane.
pub open spec fn rect_gap2(q: PVector, r: Rectangle, w: int, h: int) -> int {
    sq(axis_gap(q.x as int, r.x as int, r.x + r.width, w)) + sq(
        axis_gap(q.y as int, r.y as int, r.y + r.height, h),
    )
}

/// On one axis, the wrapped offset from `q` to a coordinate inside
/// `[lo, hi]` is at least the gap to the nearer endpoint.
proof fn lemma_axis_gap_le(q: int, lo: int, hi: int, c: int, m: int)
    requires
        0 <= lo <= c <= hi <= m,
        0 <= q < m,
    ensures
        abs_val(wrap_offset(q, c, m)) >= axis_gap(q, lo, hi, m),
{
    if lo <= q <= hi {
    } else if q < lo {
        assert(abs_val(wrap_offset(q, c, m)) == min2(c - q, m - (c - q)));
        assert(abs_val(wrap_offset(q, lo, m)) == min2(lo - q, m - (lo - q)));
        assert(abs_val(wrap_offset(q, hi, m)) == min2(hi - q, m - (hi - q)));
    } else {
        assert(abs_val(wrap_offset(q, c, m)) == min2(q - c, m - (q - c)));
        assert(abs_val(wrap_offset(q, lo, m)) == min2(q - lo, m - (q - lo)));
        assert(abs_val(wrap_offset(q, hi, m)) == min2(q - hi, m - (q - hi)));
    }
}

/// The toroidal squared distance from the query point to any point inside a
/// region is at least the region's gap bound: pruning by `rect_gap2` never
/// discards a point within the search radius.
pub proof fn lemma_gap_lower_bound(q: PVector, r: Rectangle, p: PVector, w: int, h: int)
    requires
        rect_ok(r),
        r.x + r.width <= w,
        r.y + r.height <= h,
        in_plane(q, w, h),
        rect_contains(r, p),
    ensures
        dist2(q, p, w, h) >= rect_gap2(q, r, w, h),
{
    lemma_axis_gap_le(q.x as int, r.x as int, r.x + r.width, p.x as int, w);
    lemma_axis_gap_le(q.y as int, r.y as int, r.y + r.height, p.y as int, h);
    let ox = wrap_offset(q.x as int, p.x as int, w);
    let oy = wrap_offset(q.y as int, p.y as int, h);
    let gx = axis_gap(q.x as int, r.x as int, r.x + r.width, w);
    let gy = axis_gap(q.y as int, r.y as int, r.y + r.height, h);
    assert(sq(ox) >= sq(gx)) by (nonlinear_arith)
        requires
            abs_val(ox) >= gx >= 0,
    ;
    assert(sq(oy) >= sq(gy)) by (nonlinear_arith)
        requires
            abs_val(oy) >= gy >= 0,
    ;
}

impl QuadTree {
    /// Build the index of the whole plane from a list of snapshots: a fresh
    /// empty tree, then every snapshot inserted at its position.
    pub fn new(animals: &Vec<AgentSnap>, cfg: &Config) -> (t: QuadTree)
        requires
            cfg.valid(),
            forall|i: int|
                0 <= i < animals@.len() ==> in_plane(
                    #[trigger] animals@[i].position,
                    cfg.width as int,
                    cfg.height as int,
                ),
        ensures
            t.wf(),
            t.celled(cfg.min_cell_width as int),
            t.rect() == (Rectangle { x: 0, y: 0, width: cfg.width, height: cfg.height }),
            t.members().to_multiset() == animals@.to_multiset(),
    {
        let whole = Rectangle::whole_screen(cfg);
        let mut t = QuadTree::new_tree(&whole, cfg.min_cell_width);
        proof {
            Seq::<AgentSnap>::empty().to_multiset_ensures();
            assert(Seq::<AgentSnap>::empty().to_multiset() =~= animals@.take(0).to_multiset())
                by {
                assert(animals@.take(0) =~= Seq::<AgentSnap>::empty());
            }
        }
        let n = animals.len();
        for i in 0..n
            invariant
                cfg.valid(),
                n == animals@.len(),
                forall|j: int|
                    0 <= j < animals@.len() ==> in_plane(
                        #[trigger] animals@[j].position,
                        cfg.width as int,
                        cfg.height as int,
                    ),
                t.wf(),
                t.celled(cfg.min_cell_width as int),
                t.rect() == (Rectangle { x: 0, y: 0, width: cfg.width, height: cfg.height }),
                t.members().to_multiset() == animals@.take(i as int).to_multiset(),
        {
            let ghost pre = t;
            t = t.append(&animals[i]);
            proof {
                lemma_same_shape_celled(pre, t, cfg.min_cell_width as int);
                animals@.take(i as int).to_multiset_ensures();
                assert(animals@.take(i + 1 as int) =~= animals@.take(i as int).push(
                    animals@[i as int],
                ));
            }
        }
        proof {
            assert(animals@.take(n as int) =~= animals@);
        }
        t
    }

    /// The members after removing `id` at the leaf whose region holds `p`:
    /// that leaf's list filtered by identity, every other list unchanged.
    pub open spec fn removed_members(self, id: u64, p: PVector) -> Seq<AgentSnap>
        decreases self,
    {
        match self {
            QuadTree::Leaf { animals, .. } => animals@.filter(|m: AgentSnap| m.id != id),
            QuadTree::Branch { c0, c1, c2, c3, .. } => {
                let p0 = if rect_contains(c0.rect(), p) {
                    c0.removed_members(id, p)
                } else {
                    c0.members()
                };
                let p1 = if rect_contains(c1.rect(), p) {
                    c1.removed_members(id, p)
                } else {
                    c1.members()
                };
                let p2 = if rect_contains(c2.rect(), p) {
                    c2.removed_members(id, p)
                } else {
                    c2.members()
                };
                let p3 = if rect_contains(c3.rect(), p) {
                    c3.removed_members(id, p)
                } else {
                    c3.members()
                };
                p0 + p1 + p2 + p3
            },
        }
    }

    /// Remove `animal` by identity: descend to the leaf whose region holds
    /// its position and drop every snapshot there that carries its id.
    pub fn remove(&mut self, animal: &AgentSnap)
        requires
            old(self).wf(),
        ensures
            final(self).wf(),
            old(self).same_shape(*final(self)),
            final(self).members() == old(self).removed_members(animal.id, animal.position),
    {
        let mut tmp = QuadTree::Leaf {
            rectangle: Rectangle { x: 0, y: 0, width: 0, height: 0 },
            animals: Vec::new(),
        };
        core::mem::swap(self, &mut tmp);
        *self = tmp.remove_inner(animal.id, &animal.position);
    }

    /// Owned-recursion form of `remove`.
    fn remove_inner(self, id: u64, p: &PVector) -> (t: QuadTree)
        requires
            self.wf(),
        ensures
            t.wf(),
            self.same_shape(t),
            t.members() == self.removed_members(id, *p),
        decreases self,
    {
        match self {
            QuadTree::Leaf { rectangle, animals } => {
                let ghost before = animals@;
                let mut kept: Vec<AgentSnap> = Vec::new();
                proof {
                    assert(before.take(0) =~= Seq::<AgentSnap>::empty());
                    lemma_filter_none(
                        before.take(0),
                        |m: AgentSnap| m.id != id,
                    );
                }
                let n = animals.len();
                for i in 0..n
                    invariant
                        n == before.len(),
                        animals@ == before,
                        kept@ == before.take(i as int).filter(|m: AgentSnap| m.id != id),
                {
                    proof {
                        lemma_filter_push(
                            before.take(i as int),
                            before[i as int],
                            |m: AgentSnap| m.id != id,
                        );
                        assert(before.take(i + 1 as int) =~= before.take(i as int).push(
                            before[i as int],
                        ));
                    }
                    if animals[i].id != id {
                        kept.push(animals[i]);
                    }
                }
                proof {
                    assert(before.take(n as int) =~= before);
                    lemma_filter_subset(before, |m: AgentSnap| m.id != id);
                    let kept_seq = before.filter(|m: AgentSnap| m.id != id);
                    assert forall|i: int| 0 <= i < kept_seq.len() implies rect_contains(
                        rectangle,
                        #[trigger] kept_seq[i].position,
                    ) by {
                        assert(kept_seq.contains(kept_seq[i]));
                        assert(before.contains(kept_seq[i]));
                        let j = choose|j: int| 0 <= j < before.len() && before[j] == kept_seq[i];
                        assert(rect_contains(rectangle, before[j].position));
                    }
                }
                QuadTree::Leaf { rectangle, animals: kept }
            },
            QuadTree::Branch { rectangle, c0, c1, c2, c3 } => {
                proof {
                    lemma_same_shape_refl(*c0);
                    lemma_same_shape_refl(*c1);
                    lemma_same_shape_refl(*c2);
                    lemma_same_shape_refl(*c3);
                }
                if rectangle.child(0).is_inside(p) {
                    let n0 = Box::new((*c0).remove_inner(id, p));
                    QuadTree::Branch { rectangle, c0: n0, c1, c2, c3 }
                } else if rectangle.child(1).is_inside(p) {
                    let n1 = Box::new((*c1).remove_inner(id, p));
                    QuadTree::Branch { rectangle, c0, c1: n1, c2, c3 }
                } else if rectangle.child(2).is_inside(p) {
                    let n2 = Box::new((*c2).remove_inner(id, p));
                    QuadTree::Branch { rectangle, c0, c1, c2: n2, c3 }
                } else if rectangle.child(3).is_inside(p) {
                    let n3 = Box::new((*c3).remove_inner(id, p));
                    QuadTree::Branch { rectangle, c0, c1, c2, c3: n3 }
                } else {
                    QuadTree::Branch { rectangle, c0, c1, c2, c3 }
                }
            },
        }
    }

    /// The region this node covers, executable form.
    pub fn rect_of(&self) -> (r: Rectangle)
        ensures
            r == self.rect(),
    {
        match self {
            QuadTree::Leaf { rectangle, .. } => *rectangle,
            QuadTree::Branch { rectangle, .. } => *rectangle,
        }
    }

    /// All members within `radius` of `q`, by exact toroidal distance: the
    /// members list filtered by `hit`, in tree order. Subtrees whose region
    /// cannot come within the radius are pruned without being visited.
    pub fn search(&self, q: &PVector, radius: i64, w: i64, h: i64) -> (found: Vec<AgentSnap>)
        requires
            self.wf(),
            self.rect().x + self.rect().width <= w,
            self.rect().y + self.rect().height <= h,
            in_plane(*q, w as int, h as int),
            w <= PLANE_LIMIT,
            h <= PLANE_LIMIT,
            0 <= radius <= PLANE_LIMIT,
        ensures
            found@ == self.members().filter(
                |m: AgentSnap| hit(m, *q, radius as int, w as int, h as int),
            ),
        decreases *self,
    {
        let rect = self.rect_of();
        let gx = axis_gap_exec(q.x, rect.x, rect.x + rect.width, w);
        let gy = axis_gap_exec(q.y, rect.y, rect.y + rect.height, h);
        proof {
            assert(0 <= gx * gx <= 4_000_000_000_000i64 && 0 <= gy * gy
                <= 4_000_000_000_000i64 && 0 <= radius * radius <= 4_000_000_000_000i64)
                by (nonlinear_arith)
                requires
                    0 <= gx <= PLANE_LIMIT,
                    0 <= gy <= PLANE_LIMIT,
                    0 <= radius <= PLANE_LIMIT,
                    PLANE_LIMIT == 2_000_000i64,
            ;
        }
        if gx * gx + gy * gy >= radius * radius {
            proof {
                lemma_members_in_rect(*self);
                assert forall|i: int| 0 <= i < self.members().len() implies !hit(
                    #[trigger] self.members()[i],
                    *q,
                    radius as int,
                    w as int,
                    h as int,
                ) by {
                    lemma_gap_lower_bound(
                        *q,
                        self.rect(),
                        self.members()[i].position,
                        w as int,
                        h as int,
                    );
                }
                lemma_filter_none(
                    self.members(),
                    |m: AgentSnap| hit(m, *q, radius as int, w as int, h as int),
                );
            }
            Vec::new()
        } else {
            match self {
                QuadTree::Leaf { rectangle, animals } => {
                    let ghost pred = |m: AgentSnap| hit(m, *q, radius as int, w as int, h as int);
                    let mut found: Vec<AgentSnap> = Vec::new();
                    proof {
                        assert(animals@.take(0) =~= Seq::<AgentSnap>::empty());
                        lemma_filter_none(animals@.take(0), pred);
                        assert(0 <= radius * radius <= 4_000_000_000_000i64 && radius * radius
                            == sq(radius as int)) by (nonlinear_arith)
                            requires
                                0 <= radius <= 2_000_000i64,
                        ;
                    }
                    let r2 = radius * radius;
                    let n = animals.len();
                    for i in 0..n
                        invariant
                            n == animals@.len(),
                            found@ == animals@.take(i as int).filter(pred),
                            pred == (|m: AgentSnap| hit(
                                m,
                                *q,
                                radius as int,
                                w as int,
                                h as int,
                            )),
                            r2 == sq(radius as int),
                            rect_ok(*rectangle),
                            rectangle.x + rectangle.width <= w,
                            rectangle.y + rectangle.height <= h,
                            in_plane(*q, w as int, h as int),
                            w <= PLANE_LIMIT,
                            h <= PLANE_LIMIT,
                            forall|j: int|
                                0 <= j < animals@.len() ==> rect_contains(
                                    *rectangle,
                                    #[trigger] animals@[j].position,
                                ),
                    {
                        proof {
                            lemma_filter_push(animals@.take(i as int), animals@[i as int], pred);
                            assert(animals@.take(i + 1 as int) =~= animals@.take(i as int).push(
                                animals@[i as int],
                            ));
                        }
                        let d2 = q.dist2_to(&animals[i].position, w, h);
                        if d2 < r2 {
                            found.push(animals[i]);
                        }
                    }
                    proof {
                        assert(animals@.take(n as int) =~= animals@);
                    }
                    found
                },
                QuadTree::Branch { c0, c1, c2, c3, rectangle } => {
                    proof {
                        lemma_quarter_ok(*rectangle, 0);
                        lemma_quarter_ok(*rectangle, 1);
                        lemma_quarter_ok(*rectangle, 2);
                        lemma_quarter_ok(*rectangle, 3);
                    }
                    let mut found = c0.search(q, radius, w, h);
                    let mut f1 = c1.search(q, radius, w, h);
                    let mut f2 = c2.search(q, radius, w, h);
                    let mut f3 = c3.search(q, radius, w, h);
                    proof {
                        let pred = |m: AgentSnap| hit(m, *q, radius as int, w as int, h as int);
                        Seq::filter_distributes_over_add(c0.members(), c1.members(), pred);
                        Seq::filter_distributes_over_add(
                            c0.members() + c1.members(),
                            c2.members(),
                            pred,
                        );
                        Seq::filter_distributes_over_add(
                            c0.members() + c1.members() + c2.members(),
                            c3.members(),
                            pred,
                        );
                    }
                    found.append(&mut f1);
                    found.append(&mut f2);
                    found.append(&mut f3);
                    found
                },
            }
        }
    }
}

/// The nearest-endpoint gap on one axis, executable form.
fn axis_gap_exec(q: i64, lo: i64, hi: i64, m: i64) -> (r: i64)
    requires
        0 <= lo <= hi <= m,
        0 <= q < m,
        m <= PLANE_LIMIT,
    ensures
        r == axis_gap(q as int, lo as int, hi as int, m as int),
        0 <= r <= m,
{
    if lo <= q && q <= hi {
        0
    } else {
        let dl = if q < lo {
            let d = lo - q;
            if 2 * d <= m {
                d
            } else {
                m - d
            }
        } else {
            let d = q - lo;
            if 2 * d <= m {
                d
            } else {
                m - d
            }
        };
        let dh = if q < hi {
            let d = hi - q;
            if 2 * d <= m {
                d
            } else {
                m - d
            }
        } else {
            let d = q - hi;
            if 2 * d <= m {
                d
            } else {
                m - d
            }
        };
        if dl < dh {
            dl
        } else {
            dh
        }
    }
}

/// `to_multiset` distributes over the four-way concatenation of a branch's
/// member lists.
proof fn lemma_concat4_multiset(a: Seq<AgentSnap>, b: Seq<AgentSnap>, c: Seq<AgentSnap>, d: Seq<
    AgentSnap,
>)
    ensures
        (a + b + c + d).to_multiset() == a.to_multiset().add(b.to_multiset()).add(
            c.to_multiset(),
        ).add(d.to_multiset()),
{
    lemma_multiset_commutative(a, b);
    lemma_multiset_commutative(a + b, c);
    lemma_multiset_commutative(a + b + c, d);
}

/// A tree has its own shape.
pub proof fn lemma_same_shape_refl(t: QuadTree)
    ensures
        t.same_shape(t),
    decreases t,
{
    match t {
        QuadTree::Leaf { .. } => {},
        QuadTree::Branch { c0, c1, c2, c3, .. } => {
            lemma_same_shape_refl(*c0);
            lemma_same_shape_refl(*c1);
            lemma_same_shape_refl(*c2);
            lemma_same_shape_refl(*c3);
        },
    }
}

/// Trees of the same shape are celled alike.
pub proof fn lemma_same_shape_celled(a: QuadTree, b: QuadTree, min_cell: int)
    requires
        a.same_shape(b),
        a.celled(min_cell),
    ensures
        b.celled(min_cell),
    decreases a,
{
    match (a, b) {
        (QuadTree::Leaf { .. }, QuadTree::Leaf { .. }) => {},
        (
            QuadTree::Branch { c0, c1, c2, c3, .. },
            QuadTree::Branch { c0: d0, c1: d1, c2: d2, c3: d3, .. },
        ) => {
            lemma_same_shape_celled(*c0, *d0, min_cell);
            lemma_same_shape_celled(*c1, *d1, min_cell);
            lemma_same_shape_celled(*c2, *d2, min_cell);
            lemma_same_shape_celled(*c3, *d3, min_cell);
        },
        _ => {},
    }
}

/// The region of the leaf that the descent for point `p` ends in; the
/// node's own region where no child holds `p`.
pub open spec fn leaf_rect(t: QuadTree, p: PVector) -> Rectangle
    decreases t,
{
    match t {
        QuadTree::Leaf { rectangle, .. } => rectangle,
        QuadTree::Branch { rectangle, c0, c1, c2, c3 } => {
            if rect_contains(c0.rect(), p) {
                leaf_rect(*c0, p)
            } else if rect_contains(c1.rect(), p) {
                leaf_rect(*c1, p)
            } else if rect_contains(c2.rect(), p) {
                leaf_rect(*c2, p)
            } else if rect_contains(c3.rect(), p) {
                leaf_rect(*c3, p)
            } else {
                rectangle
            }
        },
    }
}

/// Where an agent's position lands after one move, wrapped onto the plane.
pub open spec fn moved_position(a: AgentSnap, cfg: Config) -> PVector {
    PVector {
        x: crate::animal::wrap_coord(a.position.x + a.velocity.x, cfg.width as int) as i64,
        y: crate::animal::wrap_coord(a.position.y + a.velocity.y, cfg.height as int) as i64,
    }
}

impl QuadTree {
    /// The region of the leaf the descent for `p` ends in, executable form.
    pub fn leaf_rect_of(&self, p: &PVector) -> (r: Rectangle)
        requires
            self.wf(),
        ensures
            r == leaf_rect(*self, *p),
        decreases *self,
    {
        match self {
            QuadTree::Leaf { rectangle, .. } => *rectangle,
            QuadTree::Branch { rectangle, c0, c1, c2, c3 } => {
                if rectangle.child(0).is_inside(p) {
                    c0.leaf_rect_of(p)
                } else if rectangle.child(1).is_inside(p) {
                    c1.leaf_rect_of(p)
                } else if rectangle.child(2).is_inside(p) {
                    c2.leaf_rect_of(p)
                } else if rectangle.child(3).is_inside(p) {
                    c3.leaf_rect_of(p)
                } else {
                    *rectangle
                }
            },
        }
    }

    /// The agent's next move crosses into a different cell of the index:
    /// the leaf regions of its position and of its wrapped next position
    /// differ.
    pub fn is_move_tree(&self, animal: &AgentSnap, cfg: &Config) -> (r: bool)
        requires
            self.wf(),
            cfg.valid(),
            in_plane(animal.position, cfg.width as int, cfg.height as int),
            crate::pvector::bounded(animal.velocity, crate::animal::step_limit(*cfg)),
        ensures
            r == (leaf_rect(*self, animal.position) != leaf_rect(
                *self,
                moved_position(*animal, *cfg),
            )),
    {
        let nx = animal.position.x + animal.velocity.x;
        let ny = animal.position.y + animal.velocity.y;
        let wx = if nx >= cfg.width {
            nx - cfg.width
        } else if nx < 0 {
            nx + cfg.width
        } else {
            nx
        };
        let wy = if ny >= cfg.height {
            ny - cfg.height
        } else if ny < 0 {
            ny + cfg.height
        } else {
            ny
        };
        let here = self.leaf_rect_of(&animal.position);
        let there = self.leaf_rect_of(&PVector { x: wx, y: wy });
        here != there
    }
}

/// The ever-smaller first quadrant of `r`, halved until it is narrower
/// than `min_cell`: the region of the smallest cell of an index over `r`.
pub open spec fn cell_rect(r: Rectangle, min_cell: int) -> Rectangle
    decreases r.width,
{
    if r.width < min_cell || r.width <= 0 {
        r
    } else {
        cell_rect(quarter(r, 0), min_cell)
    }
}

impl Rectangle {
    /// The smallest cell of an index over this region: the first quadrant,
    /// halved until it is narrower than the minimum cell width.
    pub fn min_rectangle(&self, min_cell: i64) -> (r: Rectangle)
        requires
            rect_ok(*self),
            2 <= min_cell,
        ensures
            r == cell_rect(*self, min_cell as int),
    {
        let mut cur = *self;
        while cur.width >= min_cell
            invariant
                rect_ok(cur),
                2 <= min_cell,
                cell_rect(cur, min_cell as int) == cell_rect(*self, min_cell as int),
            decreases cur.width,
        {
            proof {
                lemma_quarter_ok(cur, 0);
            }
            cur = cur.child(0);
        }
        cur
    }
}

/// A radius search of an index answers exactly as a linear scan of the
/// population the index was built from: the same snapshots pass the same
/// distance test, whatever order either side keeps them in.
pub proof fn lemma_search_matches_scan(
    t: QuadTree,
    snaps: Seq<AgentSnap>,
    q: PVector,
    radius: int,
    w: int,
    h: int,
)
    requires
        t.members().to_multiset() == snaps.to_multiset(),
    ensures
        t.members().filter(|m: AgentSnap| hit(m, q, radius, w, h)).to_multiset() == snaps.filter(
            |m: AgentSnap| hit(m, q, radius, w, h),
        ).to_multiset(),
{
    let pred = |m: AgentSnap| hit(m, q, radius, w, h);
    crate::seq_lemmas::lemma_filter_to_multiset(t.members(), pred);
    crate::seq_lemmas::lemma_filter_to_multiset(snaps, pred);
}

} // verus!
