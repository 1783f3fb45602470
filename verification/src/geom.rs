//! Exact integer plane geometry: points, axis-aligned boxes, signed area and
//! nonzero-winding ray crossings over the on-curve vertices of a subpath.

use vstd::prelude::*;
use crate::math::mul_i128;

verus! {

/// Largest magnitude accepted for an input outline coordinate, in design units.
pub const GLYPH_LIMIT: i64 = 100_000_000;

/// Largest magnitude of a stored on-curve coordinate (design units scaled by 3,
/// so that quadratic-to-cubic elevation stays exact).
pub const COORD_LIMIT: i64 = 300_000_000;

/// Largest magnitude of a stored control offset.
pub const OFFSET_LIMIT: i64 = 600_000_000;

/// Largest magnitude of an absolute control point (vertex plus offset).
pub const CTRL_LIMIT: i64 = 900_000_000;

/// A point of the integer plane.
#[derive(Clone, Copy, PartialEq, Eq, Structural, Debug)]
pub struct Pt {
    pub x: i64,
    pub y: i64,
}

/// An axis-aligned box; `x0 <= x1` and `y0 <= y1` whenever it came from a
/// nonempty point set.
#[derive(Clone, Copy, PartialEq, Eq, Structural, Debug)]
pub struct BBox {
    pub x0: i64,
    pub y0: i64,
    pub x1: i64,
    pub y1: i64,
}

pub open spec fn pt_in_coord_range(p: Pt) -> bool {
    &&& -COORD_LIMIT <= p.x <= COORD_LIMIT
    &&& -COORD_LIMIT <= p.y <= COORD_LIMIT
}

pub open spec fn pt_in_offset_range(p: Pt) -> bool {
    &&& -OFFSET_LIMIT <= p.x <= OFFSET_LIMIT
    &&& -OFFSET_LIMIT <= p.y <= OFFSET_LIMIT
}

/// `outer` fully contains `inner`.
pub open spec fn box_contains(outer: BBox, inner: BBox) -> bool {
    &&& outer.x0 <= inner.x0
    &&& inner.x1 <= outer.x1
    &&& outer.y0 <= inner.y0
    &&& inner.y1 <= outer.y1
}

/// Exec mirror of `box_contains`.
pub fn box_contains_exec(outer: &BBox, inner: &BBox) -> (r: bool)
    ensures
        r == box_contains(*outer, *inner),
{
    outer.x0 <= inner.x0 && inner.x1 <= outer.x1 && outer.y0 <= inner.y0 && inner.y1 <= outer.y1
}

/// Box around a single point.
pub open spec fn pt_box(p: Pt) -> BBox {
    BBox { x0: p.x, y0: p.y, x1: p.x, y1: p.y }
}

/// Smallest box around `b` and the point `p`.
pub open spec fn box_join_pt(b: BBox, p: Pt) -> BBox {
    BBox {
        x0: if p.x < b.x0 { p.x } else { b.x0 },
        y0: if p.y < b.y0 { p.y } else { b.y0 },
        x1: if p.x > b.x1 { p.x } else { b.x1 },
        y1: if p.y > b.y1 { p.y } else { b.y1 },
    }
}

/// Smallest box around two boxes.
pub open spec fn box_join(a: BBox, b: BBox) -> BBox {
    BBox {
        x0: if a.x0 < b.x0 { a.x0 } else { b.x0 },
        y0: if a.y0 < b.y0 { a.y0 } else { b.y0 },
        x1: if a.x1 > b.x1 { a.x1 } else { b.x1 },
        y1: if a.y1 > b.y1 { a.y1 } else { b.y1 },
    }
}

/// Exec mirror of `box_join`.
pub fn box_join_exec(a: &BBox, b: &BBox) -> (r: BBox)
    ensures
        r == box_join(*a, *b),
{
    BBox {
        x0: if a.x0 < b.x0 { a.x0 } else { b.x0 },
        y0: if a.y0 < b.y0 { a.y0 } else { b.y0 },
        x1: if a.x1 > b.x1 { a.x1 } else { b.x1 },
        y1: if a.y1 > b.y1 { a.y1 } else { b.y1 },
    }
}

/// All four sides of the box lie within the absolute control-point range.
pub open spec fn box_in_ctrl_range(b: BBox) -> bool {
    &&& -CTRL_LIMIT <= b.x0 <= CTRL_LIMIT
    &&& -CTRL_LIMIT <= b.y0 <= CTRL_LIMIT
    &&& -CTRL_LIMIT <= b.x1 <= CTRL_LIMIT
    &&& -CTRL_LIMIT <= b.y1 <= CTRL_LIMIT
}

/// Twice the cross product of `b - a` with `p - a`; positive when `p` lies to
/// the left of the directed edge `a -> b`.
pub open spec fn cross(a: Pt, b: Pt, p: Pt) -> int {
    (b.x - a.x) * (p.y - a.y) - (b.y - a.y) * (p.x - a.x)
}

/// Contribution of the directed edge `a -> b` to the winding number at `p`
/// under a horizontal ray-crossing count: +1 for an upward crossing with `p`
/// left of the edge, -1 for a downward crossing with `p` right of the edge.
pub open spec fn edge_winding(a: Pt, b: Pt, p: Pt) -> int {
    if a.y <= p.y < b.y && cross(a, b, p) > 0 {
        1
    } else if b.y <= p.y < a.y && cross(a, b, p) < 0 {
        -1
    } else {
        0
    }
}

/// Successor vertex of index `i` in a cyclic vertex list.
pub open spec fn wrap_next(vs: Seq<Pt>, i: int) -> Pt {
    if i + 1 == vs.len() {
        vs[0]
    } else {
        vs[i + 1]
    }
}

/// Winding number at `p` of the polygon through the first `n` cyclic edges of
/// `vs`.
pub open spec fn winding_upto(vs: Seq<Pt>, p: Pt, n: int) -> int
    decreases n,
{
    if n <= 0 {
        0
    } else {
        winding_upto(vs, p, n - 1) + edge_winding(vs[n - 1], wrap_next(vs, n - 1), p)
    }
}

/// Winding number of the closed polygon through the on-curve vertices `vs` at
/// the point `p`: the signed count of directional edge crossings of a
/// horizontal ray from `p`.
pub open spec fn winding(vs: Seq<Pt>, p: Pt) -> int {
    winding_upto(vs, p, vs.len() as int)
}

/// Shoelace term of the directed edge `a -> b` (twice its contribution to the
/// signed area).
pub open spec fn area_term(a: Pt, b: Pt) -> int {
    a.x * b.y - b.x * a.y
}

/// Twice the signed area of the polygon through the first `n` cyclic edges.
pub open spec fn area2_upto(vs: Seq<Pt>, n: int) -> int
    decreases n,
{
    if n <= 0 {
        0
    } else {
        area2_upto(vs, n - 1) + area_term(vs[n - 1], wrap_next(vs, n - 1))
    }
}

/// Twice the signed area of the closed polygon through `vs`; positive for a
/// counter-clockwise cycle in y-up coordinates, negative for clockwise.
pub open spec fn area2(vs: Seq<Pt>) -> int {
    area2_upto(vs, vs.len() as int)
}

/// Winding direction of a vertex cycle by the sign of its accumulated area:
/// +1 for clockwise (negative area in y-up coordinates), -1 for
/// counter-clockwise, 0 for a degenerate zero-area cycle.
pub open spec fn turn_direction(vs: Seq<Pt>) -> int {
    if area2(vs) < 0 {
        1
    } else if area2(vs) > 0 {
        -1
    } else {
        0
    }
}

/// All points of `vs` lie within the stored coordinate range.
pub open spec fn pts_in_coord_range(vs: Seq<Pt>) -> bool {
    forall|k: int| 0 <= k < vs.len() ==> pt_in_coord_range(#[trigger] vs[k])
}

/// Winding number of the vertex polygon `vs` at `p`, by one pass over the
/// cyclic edge list.
pub fn winding_at(vs: &Vec<Pt>, p: Pt) -> (w: i128)
    requires
        pts_in_coord_range(vs@),
        -COORD_LIMIT - 2 <= p.x <= COORD_LIMIT + 2,
        -COORD_LIMIT - 2 <= p.y <= COORD_LIMIT + 2,
    ensures
        w == winding(vs@, p),
{
    let n = vs.len();
    let mut w: i128 = 0;
    let mut i: usize = 0;
    while i < n
        invariant
            n == vs@.len(),
            0 <= i <= n,
            pts_in_coord_range(vs@),
            -COORD_LIMIT - 2 <= p.x <= COORD_LIMIT + 2,
            -COORD_LIMIT - 2 <= p.y <= COORD_LIMIT + 2,
            w == winding_upto(vs@, p, i as int),
            -(i as int) <= w <= i as int,
        decreases n - i,
    {
        let a = vs[i];
        let b = if i + 1 == n {
            vs[0]
        } else {
            vs[i + 1]
        };
        let t1 = mul_i128(
            b.x as i128 - a.x as i128,
            p.y as i128 - a.y as i128,
            Ghost(600_000_000int),
            Ghost(600_000_004int),
        );
        let t2 = mul_i128(
            b.y as i128 - a.y as i128,
            p.x as i128 - a.x as i128,
            Ghost(600_000_000int),
            Ghost(600_000_004int),
        );
        let cr = t1 - t2;
        assert(cr == cross(a, b, p));
        if a.y <= p.y && p.y < b.y && cr > 0 {
            w = w + 1;
        } else if b.y <= p.y && p.y < a.y && cr < 0 {
            w = w - 1;
        }
        assert(wrap_next(vs@, i as int) == b);
        i = i + 1;
    }
    w
}

/// Twice the signed area of the vertex polygon `vs`.
pub fn area2_of(vs: &Vec<Pt>) -> (a2: i128)
    requires
        pts_in_coord_range(vs@),
    ensures
        a2 == area2(vs@),
        -(u64::MAX as int) * 180_000_000_000_000_000 <= a2 <= (u64::MAX as int)
            * 180_000_000_000_000_000,
{
    let n = vs.len();
    let mut acc: i128 = 0;
    let ghost term_bound: int = 180_000_000_000_000_000int;
    let mut i: usize = 0;
    while i < n
        invariant
            n == vs@.len(),
            0 <= i <= n,
            pts_in_coord_range(vs@),
            acc == area2_upto(vs@, i as int),
            -(i as int) * term_bound <= acc <= (i as int) * term_bound,
            term_bound == 180_000_000_000_000_000int,
        decreases n - i,
    {
        let a = vs[i];
        let b = if i + 1 == n {
            vs[0]
        } else {
            vs[i + 1]
        };
        let t1 = mul_i128(
            a.x as i128,
            b.y as i128,
            Ghost(300_000_000int),
            Ghost(300_000_000int),
        );
        let t2 = mul_i128(
            b.x as i128,
            a.y as i128,
            Ghost(300_000_000int),
            Ghost(300_000_000int),
        );
        proof {
            assert(i as int <= u64::MAX as int);
            crate::math::lemma_abs_mul_bound(i as int, term_bound, u64::MAX as int, term_bound);
            crate::math::lemma_abs_mul_bound(
                i as int + 1,
                term_bound,
                u64::MAX as int,
                term_bound,
            );
            assert((i as int) * term_bound + term_bound == (i as int + 1) * term_bound)
                by (nonlinear_arith);
        }
        acc = acc + (t1 - t2);
        assert(wrap_next(vs@, i as int) == b);
        i = i + 1;
    }
    proof {
        assert(n as int <= u64::MAX as int);
        crate::math::lemma_abs_mul_bound(n as int, term_bound, u64::MAX as int, term_bound);
    }
    acc
}

} // verus!
