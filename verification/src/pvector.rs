//! Two-dimensional vectors on the toroidal plane.
//!
//! Positions live in `[0, width) x [0, height)` and the displacement between
//! two points is taken independently per axis as the signed nearest offset:
//! the shorter of the direct and the wrapped path, the direct one on a tie.
//! Lengths are floor square roots of the exact sum of squares.

use vstd::prelude::*;
use crate::config::SCALE;

verus! {

/// Absolute value, as a spec-level helper.
pub open spec fn abs_val(x: int) -> int {
    if x < 0 {
        -x
    } else {
        x
    }
}

/// The square of `x`.
pub open spec fn sq(x: int) -> int {
    x * x
}

/// Signed nearest offset from `a` to `b` on a circle of circumference `m`:
/// the shorter of the direct path `b - a` and the wrapped path around the
/// edge; the direct path on a tie.
pub open spec fn wrap_offset(a: int, b: int, m: int) -> int {
    let d = b - a;
    if 2 * abs_val(d) <= m {
        d
    } else if d > 0 {
        d - m
    } else {
        d + m
    }
}

/// `r` is the floor square root of `n`.
pub open spec fn is_sqrt(n: int, r: int) -> bool {
    0 <= r && r * r <= n && n < (r + 1) * (r + 1)
}

/// The floor square root of `n` (for `n >= 0`).
pub open spec fn sqrt_floor(n: int) -> int {
    choose|r: int| is_sqrt(n, r)
}

/// `x` scaled by `t / l`, rounded toward zero.
pub open spec fn scaled_div(x: int, t: int, l: int) -> int {
    if x >= 0 {
        (x * t) / l
    } else {
        -((-x * t) / l)
    }
}

/// The x component of the vector `(x, y)` rescaled to length `t`
/// (the zero vector stays zero).
pub open spec fn norm_x(x: int, y: int, t: int) -> int {
    if x == 0 && y == 0 {
        0
    } else {
        scaled_div(x, t, sqrt_floor(sq(x) + sq(y)))
    }
}

/// The y component of the vector `(x, y)` rescaled to length `t`.
pub open spec fn norm_y(x: int, y: int, t: int) -> int {
    norm_x(y, x, t)
}

/// Two floor square roots of the same number are equal.
pub proof fn lemma_sqrt_unique(n: int, r1: int, r2: int)
    requires
        is_sqrt(n, r1),
        is_sqrt(n, r2),
    ensures
        r1 == r2,
{
    if r1 < r2 {
        assert((r1 + 1) * (r1 + 1) <= r2 * r2) by (nonlinear_arith)
            requires
                0 <= r1,
                r1 < r2,
        ;
    }
    if r2 < r1 {
        assert((r2 + 1) * (r2 + 1) <= r1 * r1) by (nonlinear_arith)
            requires
                0 <= r2,
                r2 < r1,
        ;
    }
}

/// Every nonnegative number has a floor square root.
pub proof fn lemma_sqrt_exists(n: int)
    requires
        0 <= n,
    ensures
        is_sqrt(n, sqrt_floor(n)),
    decreases n,
{
    if n == 0 {
        assert(is_sqrt(0, 0));
    } else {
        lemma_sqrt_exists(n - 1);
        let p = sqrt_floor(n - 1);
        if n < (p + 1) * (p + 1) {
            assert(is_sqrt(n, p));
        } else {
            assert((p + 1) * (p + 1) < (p + 2) * (p + 2)) by (nonlinear_arith)
                requires
                    0 <= p,
            ;
            assert(is_sqrt(n, p + 1));
        }
    }
    assert(exists|r: int| is_sqrt(n, r));
}

/// Comparing a floor square root with an integer bound is comparing the
/// radicand with the bound's square.
pub proof fn lemma_sqrt_lt(n: int, r: int, b: int)
    requires
        is_sqrt(n, r),
        0 <= b,
    ensures
        (r < b) <==> (n < b * b),
{
    if r < b {
        assert((r + 1) * (r + 1) <= b * b) by (nonlinear_arith)
            requires
                0 <= r,
                r < b,
        ;
    }
    if n < b * b {
        if b <= r {
            assert(b * b <= r * r) by (nonlinear_arith)
                requires
                    0 <= b,
                    b <= r,
            ;
        }
    }
}

/// A component of a vector is no longer than the vector.
pub proof fn lemma_component_le_len(x: int, y: int, r: int)
    requires
        is_sqrt(sq(x) + sq(y), r),
    ensures
        abs_val(x) <= r,
        abs_val(y) <= r,
{
    assert(0 <= sq(x) && 0 <= sq(y)) by (nonlinear_arith);
    if abs_val(x) > r {
        assert((r + 1) * (r + 1) <= abs_val(x) * abs_val(x)) by (nonlinear_arith)
            requires
                0 <= r,
                r < abs_val(x),
        ;
        assert(abs_val(x) * abs_val(x) == sq(x)) by (nonlinear_arith);
    }
    if abs_val(y) > r {
        assert((r + 1) * (r + 1) <= abs_val(y) * abs_val(y)) by (nonlinear_arith)
            requires
                0 <= r,
                r < abs_val(y),
        ;
        assert(abs_val(y) * abs_val(y) == sq(y)) by (nonlinear_arith);
    }
}

/// Rescaling a nonzero vector to length `t` lands within integer rounding
/// of `t`: the squared length is at least `t^2 - 4t` always, and at most
/// `t^2 * (SCALE + 2) / SCALE` when the input is at least `SCALE` long.
#[verifier::rlimit(50)]
pub proof fn lemma_rescaled_length(x: int, y: int, t: int)
    requires
        !(x == 0 && y == 0),
        0 <= t,
    ensures
        sq(norm_x(x, y, t)) + sq(norm_y(x, y, t)) >= sq(t) - 4 * t,
        sq(x) + sq(y) >= sq(SCALE as int) ==> (sq(norm_x(x, y, t)) + sq(norm_y(x, y, t))) * (
        SCALE as int) <= sq(t) * (SCALE as int + 2),
{
    let n = sq(x) + sq(y);
    assert(sq(x) >= 0 && sq(y) >= 0 && sq(x) + sq(y) >= 1) by (nonlinear_arith)
        requires
            !(x == 0 && y == 0),
    ;
    lemma_sqrt_exists(n);
    let l = sqrt_floor(n);
    assert(l >= 1) by (nonlinear_arith)
        requires
            is_sqrt(n, l),
            n >= 1,
    ;
    let xa = abs_val(x);
    let ya = abs_val(y);
    assert(sq(xa) == sq(x) && sq(ya) == sq(y)) by (nonlinear_arith)
        requires
            xa == x || xa == -x,
            ya == y || ya == -y,
    ;
    let rx = (xa * t) / l;
    let ry = (ya * t) / l;
    assert(sq(norm_x(x, y, t)) == sq(rx) && sq(norm_y(x, y, t)) == sq(ry)) by (nonlinear_arith)
        requires
            norm_x(x, y, t) == rx || norm_x(x, y, t) == -rx,
            norm_y(x, y, t) == ry || norm_y(x, y, t) == -ry,
    ;
    vstd::arithmetic::div_mod::lemma_fundamental_div_mod(xa * t, l);
    vstd::arithmetic::div_mod::lemma_mod_bound(xa * t, l);
    vstd::arithmetic::div_mod::lemma_fundamental_div_mod(ya * t, l);
    vstd::arithmetic::div_mod::lemma_mod_bound(ya * t, l);
    assert(l * rx <= xa * t <= l * rx + l - 1 && l * ry <= ya * t <= l * ry + l - 1);
    assert(0 <= rx && 0 <= ry) by (nonlinear_arith)
        requires
            l * rx <= xa * t <= l * rx + l - 1,
            l * ry <= ya * t <= l * ry + l - 1,
            0 <= xa * t,
            0 <= ya * t,
            l >= 1,
    ;
    assert(xa <= l && ya <= l) by (nonlinear_arith)
        requires
            sq(xa) <= n,
            sq(ya) <= n,
            n < (l + 1) * (l + 1),
            0 <= xa,
            0 <= ya,
            0 <= l,
    ;
    // per-component bounds against the true rescaling
    assert(sq(l) * sq(rx) <= sq(xa) * sq(t)) by (nonlinear_arith)
        requires
            0 <= l * rx <= xa * t,
    ;
    assert(sq(l) * sq(ry) <= sq(ya) * sq(t)) by (nonlinear_arith)
        requires
            0 <= l * ry <= ya * t,
    ;
    assert(sq(l) * sq(rx) >= sq(xa) * sq(t) - 2 * (xa * t) * l) by (nonlinear_arith)
        requires
            l * rx >= xa * t - l,
            0 <= l * rx,
            0 <= xa * t,
            l >= 1,
    ;
    assert(sq(l) * sq(ry) >= sq(ya) * sq(t) - 2 * (ya * t) * l) by (nonlinear_arith)
        requires
            l * ry >= ya * t - l,
            0 <= l * ry,
            0 <= ya * t,
            l >= 1,
    ;
    // distribute over the sum
    assert(sq(l) * (sq(rx) + sq(ry)) == sq(l) * sq(rx) + sq(l) * sq(ry)) by (nonlinear_arith);
    assert((sq(xa) + sq(ya)) * sq(t) == sq(xa) * sq(t) + sq(ya) * sq(t)) by (nonlinear_arith);
    assert(sq(l) * (sq(rx) + sq(ry)) <= n * sq(t));
    // lower bound of the summed squares
    assert(2 * (xa * t) * l + 2 * (ya * t) * l <= 4 * t * sq(l)) by (nonlinear_arith)
        requires
            0 <= xa <= l,
            0 <= ya <= l,
            0 <= t,
    ;
    assert(n * sq(t) >= sq(l) * sq(t)) by (nonlinear_arith)
        requires
            n >= sq(l),
            0 <= t,
    ;
    assert(sq(l) * (sq(rx) + sq(ry)) >= sq(l) * sq(t) - 4 * t * sq(l));
    assert(sq(rx) + sq(ry) >= sq(t) - 4 * t) by (nonlinear_arith)
        requires
            sq(l) * (sq(rx) + sq(ry)) >= sq(l) * sq(t) - 4 * t * sq(l),
            l >= 1,
    ;
    // upper bound once the input is at least SCALE long
    if n >= sq(SCALE as int) {
        assert(l >= SCALE as int) by (nonlinear_arith)
            requires
                n < (l + 1) * (l + 1),
                n >= sq(SCALE as int),
                l >= 0,
                SCALE == 1000i64,
        ;
        assert(n <= sq(l) + 2 * l) by (nonlinear_arith)
            requires
                n < (l + 1) * (l + 1),
        ;
        assert((sq(rx) + sq(ry)) * (SCALE as int) <= sq(t) * (SCALE as int + 2))
            by (nonlinear_arith)
            requires
                sq(l) * (sq(rx) + sq(ry)) <= n * sq(t),
                n <= sq(l) + 2 * l,
                l >= SCALE as int,
                SCALE == 1000i64,
                0 <= t,
                0 <= sq(rx) + sq(ry),
        ;
    }
}

/// Floor square root, by binary search.
pub fn isqrt(n: u64) -> (r: u64)
    requires
        n < 9_000_000_000_000_000_000,
    ensures
        is_sqrt(n as int, r as int),
        r == sqrt_floor(n as int),
{
    let mut lo: u64 = 0;
    let mut hi: u64 = 3_000_000_000;
    assert(9_000_000_000_000_000_000 == 3_000_000_000i64 * 3_000_000_000i64) by (nonlinear_arith);
    while lo + 1 < hi
        invariant
            lo < hi <= 3_000_000_000,
            lo * lo <= n,
            n < hi * hi,
        decreases hi - lo,
    {
        let mid = lo + (hi - lo) / 2;
        assert(mid * mid <= 3_000_000_000u64 * 3_000_000_000u64) by (nonlinear_arith)
            requires
                mid <= 3_000_000_000u64,
        ;
        if mid * mid <= n {
            lo = mid;
        } else {
            hi = mid;
        }
    }
    proof {
        assert(is_sqrt(n as int, lo as int));
        lemma_sqrt_unique(n as int, lo as int, sqrt_floor(n as int));
    }
    lo
}

/// A point of the toroidal plane, or a displacement on it, in coordinate
/// steps of `1 / SCALE` plane units.
#[derive(Clone, Copy, PartialEq, Eq, Structural, Debug)]
pub struct PVector {
    pub x: i64,
    pub y: i64,
}

/// Both components of `v` have magnitude at most `b`.
pub open spec fn bounded(v: PVector, b: int) -> bool {
    abs_val(v.x as int) <= b && abs_val(v.y as int) <= b
}

/// `v` lies on the plane `[0, w) x [0, h)`.
pub open spec fn in_plane(v: PVector, w: int, h: int) -> bool {
    0 <= v.x < w && 0 <= v.y < h
}

/// The toroidal squared distance between points `a` and `b`.
pub open spec fn dist2(a: PVector, b: PVector, w: int, h: int) -> int {
    sq(wrap_offset(a.x as int, b.x as int, w)) + sq(wrap_offset(a.y as int, b.y as int, h))
}

/// Signed nearest offset along one axis, executable form.
fn offset_axis(a: i64, b: i64, m: i64) -> (r: i64)
    requires
        0 <= a < m,
        0 <= b < m,
        m <= crate::config::PLANE_LIMIT,
    ensures
        r == wrap_offset(a as int, b as int, m as int),
        2 * abs_val(r as int) <= m,
{
    let d = b - a;
    let ad = if d < 0 { -d } else { d };
    if 2 * ad <= m {
        d
    } else if d > 0 {
        d - m
    } else {
        d + m
    }
}

impl PVector {
    pub fn new(x: i64, y: i64) -> (v: PVector)
        ensures
            v.x == x,
            v.y == y,
    {
        PVector { x, y }
    }

    pub fn zero() -> (v: PVector)
        ensures
            v.x == 0,
            v.y == 0,
    {
        PVector { x: 0, y: 0 }
    }

    /// The floor of this vector's Euclidean length.
    pub fn len(&self) -> (r: i64)
        requires
            bounded(*self, 2_000_000_000),
        ensures
            is_sqrt(sq(self.x as int) + sq(self.y as int), r as int),
            r == sqrt_floor(sq(self.x as int) + sq(self.y as int)),
            0 <= r <= 3_000_000_000,
    {
        let xa: u64 = if self.x < 0 { (-self.x) as u64 } else { self.x as u64 };
        let ya: u64 = if self.y < 0 { (-self.y) as u64 } else { self.y as u64 };
        assert(xa * xa == sq(self.x as int) && ya * ya == sq(self.y as int)) by (nonlinear_arith)
            requires
                xa == abs_val(self.x as int),
                ya == abs_val(self.y as int),
        ;
        assert(xa * xa <= 2_000_000_000u64 * 2_000_000_000u64 && ya * ya <= 2_000_000_000u64
            * 2_000_000_000u64) by (nonlinear_arith)
            requires
                xa <= 2_000_000_000u64,
                ya <= 2_000_000_000u64,
        ;
        let r = isqrt(xa * xa + ya * ya);
        proof {
            assert(r as int * r as int <= 8_000_000_000_000_000_000) by (nonlinear_arith)
                requires
                    is_sqrt(xa as int * xa as int + ya as int * ya as int, r as int),
                    xa <= 2_000_000_000u64,
                    ya <= 2_000_000_000u64,
            ;
            assert(r <= 3_000_000_000u64) by (nonlinear_arith)
                requires
                    r as int * r as int <= 8_000_000_000_000_000_000,
            ;
        }
        r as i64
    }

    /// The signed nearest per-axis displacement from `self` to `other` on the
    /// `w x h` toroidal plane.
    pub fn offset(&self, other: &PVector, w: i64, h: i64) -> (r: PVector)
        requires
            in_plane(*self, w as int, h as int),
            in_plane(*other, w as int, h as int),
            w <= crate::config::PLANE_LIMIT,
            h <= crate::config::PLANE_LIMIT,
        ensures
            r.x == wrap_offset(self.x as int, other.x as int, w as int),
            r.y == wrap_offset(self.y as int, other.y as int, h as int),
            2 * abs_val(r.x as int) <= w,
            2 * abs_val(r.y as int) <= h,
    {
        PVector { x: offset_axis(self.x, other.x, w), y: offset_axis(self.y, other.y, h) }
    }

    pub fn add(&self, other: &PVector) -> (r: PVector)
        requires
            bounded(*self, 2_000_000_000),
            bounded(*other, 2_000_000_000),
        ensures
            r.x == self.x + other.x,
            r.y == self.y + other.y,
    {
        PVector { x: self.x + other.x, y: self.y + other.y }
    }

    /// Componentwise scaling by an integer.
    pub fn mult(&self, scalar: i64) -> (r: PVector)
        requires
            bounded(*self, 1_000_000),
            abs_val(scalar as int) <= 1_000_000,
        ensures
            r.x == self.x * scalar,
            r.y == self.y * scalar,
    {
        proof {
            assert(abs_val(self.x as int * scalar as int) <= 1_000_000_000_000i64 && abs_val(
                self.y as int * scalar as int,
            ) <= 1_000_000_000_000i64) by (nonlinear_arith)
                requires
                    abs_val(self.x as int) <= 1_000_000,
                    abs_val(self.y as int) <= 1_000_000,
                    abs_val(scalar as int) <= 1_000_000,
            ;
        }
        PVector { x: self.x * scalar, y: self.y * scalar }
    }

    /// This vector rescaled to length `target`, rounding each component
    /// toward zero; the zero vector stays zero.
    pub fn with_magnitude(&self, target: i64) -> (r: PVector)
        requires
            bounded(*self, 2_000_000_000),
            0 <= target <= 1_000_000,
        ensures
            r.x == norm_x(self.x as int, self.y as int, target as int),
            r.y == norm_y(self.x as int, self.y as int, target as int),
            bounded(r, target as int),
            !(self.x == 0 && self.y == 0) ==> sq(r.x as int) + sq(r.y as int) >= sq(target as int)
                - 4 * target,
            sq(self.x as int) + sq(self.y as int) >= sq(SCALE as int) ==> (sq(r.x as int) + sq(
                r.y as int,
            )) * (SCALE as int) <= sq(target as int) * (SCALE as int + 2),
    {
        proof {
            if !(self.x == 0 && self.y == 0) {
                lemma_rescaled_length(self.x as int, self.y as int, target as int);
            }
            if self.x == 0 && self.y == 0 {
                assert(sq(self.x as int) + sq(self.y as int) < sq(SCALE as int))
                    by (nonlinear_arith)
                    requires
                        self.x == 0i64 && self.y == 0i64,
                        SCALE == 1000i64,
                ;
            }
        }
        if self.x == 0 && self.y == 0 {
            let z = PVector { x: 0, y: 0 };
            assert(abs_val(0) <= target);
            z
        } else {
            let l = self.len();
            proof {
                let n = sq(self.x as int) + sq(self.y as int);
                assert(0 <= sq(self.x as int) && 0 <= sq(self.y as int)) by (nonlinear_arith);
                if n == 0 {
                    assert(sq(self.x as int) == 0 && sq(self.y as int) == 0);
                    assert(self.x as int == 0 && self.y as int == 0) by (nonlinear_arith)
                        requires
                            sq(self.x as int) == 0,
                            sq(self.y as int) == 0,
                    ;
                }
                assert(n >= 1);
                assert(l >= 1) by (nonlinear_arith)
                    requires
                        is_sqrt(n, l as int),
                        n >= 1,
                ;
                lemma_component_le_len(self.x as int, self.y as int, l as int);
            }
            let xa: u64 = if self.x < 0 { (-self.x) as u64 } else { self.x as u64 };
            let ya: u64 = if self.y < 0 { (-self.y) as u64 } else { self.y as u64 };
            proof {
                assert((xa as int) * (target as int) <= 2_000_000_000i64 * 1_000_000i64 && (
                ya as int) * (target as int) <= 2_000_000_000i64 * 1_000_000i64)
                    by (nonlinear_arith)
                    requires
                        xa as int <= 2_000_000_000i64,
                        ya as int <= 2_000_000_000i64,
                        0 <= target as int <= 1_000_000i64,
                ;
            }
            let rx: u64 = xa * (target as u64) / (l as u64);
            let ry: u64 = ya * (target as u64) / (l as u64);
            proof {
                assert(rx as int <= target as int && ry as int <= target as int)
                    by (nonlinear_arith)
                    requires
                        rx as int == (xa as int) * (target as int) / (l as int),
                        ry as int == (ya as int) * (target as int) / (l as int),
                        xa as int <= l as int,
                        ya as int <= l as int,
                        1 <= l as int,
                        0 <= target as int,
                ;
            }
            let fx: i64 = if self.x < 0 { -(rx as i64) } else { rx as i64 };
            let fy: i64 = if self.y < 0 { -(ry as i64) } else { ry as i64 };
            PVector { x: fx, y: fy }
        }
    }

    /// This vector rescaled to unit length, at `SCALE` steps per unit.
    pub fn normalize(&self) -> (r: PVector)
        requires
            bounded(*self, 2_000_000_000),
        ensures
            r.x == norm_x(self.x as int, self.y as int, SCALE as int),
            r.y == norm_y(self.x as int, self.y as int, SCALE as int),
            bounded(r, SCALE as int),
    {
        self.with_magnitude(SCALE)
    }

    /// The toroidal squared distance from `self` to `other`.
    pub fn dist2_to(&self, other: &PVector, w: i64, h: i64) -> (r: i64)
        requires
            in_plane(*self, w as int, h as int),
            in_plane(*other, w as int, h as int),
            w <= crate::config::PLANE_LIMIT,
            h <= crate::config::PLANE_LIMIT,
        ensures
            r == dist2(*self, *other, w as int, h as int),
            0 <= r <= 2_000_000_000_000,
    {
        let o = self.offset(other, w, h);
        proof {
            assert(0 <= sq(o.x as int) <= 1_000_000_000_000 && 0 <= sq(o.y as int)
                <= 1_000_000_000_000) by (nonlinear_arith)
                requires
                    abs_val(o.x as int) <= 1_000_000,
                    abs_val(o.y as int) <= 1_000_000,
            ;
        }
        o.x * o.x + o.y * o.y
    }
}

/// The nearest offset is antisymmetric: swapping the endpoints negates it,
/// exactly, on both axes.
pub proof fn lemma_offset_antisymmetry(a: PVector, b: PVector, w: int, h: int)
    requires
        in_plane(a, w, h),
        in_plane(b, w, h),
    ensures
        wrap_offset(a.x as int, b.x as int, w) == -wrap_offset(b.x as int, a.x as int, w),
        wrap_offset(a.y as int, b.y as int, h) == -wrap_offset(b.y as int, a.y as int, h),
{
}

/// The nearest offset differs from the plain difference by a multiple of the
/// circumference and is no longer than half of it: it is the shorter path.
pub proof fn lemma_offset_shortest(a: int, b: int, m: int)
    requires
        0 <= a < m,
        0 <= b < m,
    ensures
        wrap_offset(a, b, m) == b - a || wrap_offset(a, b, m) == b - a - m || wrap_offset(a, b, m)
            == b - a + m,
        2 * abs_val(wrap_offset(a, b, m)) <= m,
{
}

} // verus!
