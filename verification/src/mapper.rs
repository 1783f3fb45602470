//! Affine mapping from the font design box into a destination box, computed
//! over exact rationals: translate the source min corner to the origin, flip
//! the y axis, scale non-uniformly, and align with the destination min
//! corner.

use vstd::prelude::*;
use crate::geom::{CTRL_LIMIT, GLYPH_LIMIT};
use crate::math::mul_i128;

verus! {

/// An exact rational number `num / den`; `den` is positive.
#[derive(Clone, Copy, PartialEq, Eq, Structural, Debug)]
pub struct Q {
    pub num: i128,
    pub den: i128,
}

/// Magnitude caps accepted for template-authored values: numerators up to
/// 10^12 and denominators up to 10^6.
pub open spec fn q_small(q: Q) -> bool {
    &&& -1_000_000_000_000 <= q.num <= 1_000_000_000_000
    &&& 0 < q.den <= 1_000_000
}

/// `a` is strictly below `b` as numbers (denominators positive).
pub open spec fn q_lt(a: Q, b: Q) -> bool {
    a.num * b.den < b.num * a.den
}

/// Magnitudes fit the comparison arithmetic.
pub open spec fn q_cmp_bounded(q: Q) -> bool {
    &&& -1_000_000_000_000_000_000 <= q.num <= 1_000_000_000_000_000_000
    &&& 0 < q.den <= 1_000_000_000_000_000_000
}

/// Exec comparison of bounded rationals.
pub fn q_lt_exec(a: &Q, b: &Q) -> (r: bool)
    requires
        q_cmp_bounded(*a),
        q_cmp_bounded(*b),
    ensures
        r == q_lt(*a, *b),
{
    let l = mul_i128(a.num, b.den, Ghost(1_000_000_000_000_000_000int), Ghost(
        1_000_000_000_000_000_000int,
    ));
    let r2 = mul_i128(b.num, a.den, Ghost(1_000_000_000_000_000_000int), Ghost(
        1_000_000_000_000_000_000int,
    ));
    l < r2
}

/// The axis-aligned font design box, in design units.
#[derive(Clone, Copy, PartialEq, Eq, Structural, Debug)]
pub struct DesignBox {
    pub x0: i64,
    pub y0: i64,
    pub x1: i64,
    pub y1: i64,
}

pub open spec fn design_box_in_range(b: DesignBox) -> bool {
    &&& -GLYPH_LIMIT <= b.x0 <= GLYPH_LIMIT
    &&& -GLYPH_LIMIT <= b.y0 <= GLYPH_LIMIT
    &&& -GLYPH_LIMIT <= b.x1 <= GLYPH_LIMIT
    &&& -GLYPH_LIMIT <= b.y1 <= GLYPH_LIMIT
}

/// The design box has positive width and height.
pub open spec fn design_box_valid(b: DesignBox) -> bool {
    b.x0 < b.x1 && b.y0 < b.y1
}

/// An axis-aligned destination box with exact rational sides.
#[derive(Clone, Copy, PartialEq, Eq, Structural, Debug)]
pub struct QBox {
    pub x0: Q,
    pub y0: Q,
    pub x1: Q,
    pub y1: Q,
}

pub open spec fn qbox_small(b: QBox) -> bool {
    q_box_small(b.x0) && q_box_small(b.y0) && q_box_small(b.x1) && q_box_small(b.y1)
}

/// Caps accepted for one side of a destination box: the exact sum of two
/// capped template values (a rectangle's position plus its size) stays
/// within them.
pub open spec fn q_box_small(q: Q) -> bool {
    &&& -2_000_000_000_000 <= q.num <= 2_000_000_000_000
    &&& 0 < q.den <= 1_000_000
}

/// The destination box has positive width and height.
pub open spec fn qbox_valid(b: QBox) -> bool {
    q_lt(b.x0, b.x1) && q_lt(b.y0, b.y1)
}

/// The affine transform from the font design box (in stored units, which are
/// design units scaled by 3) into a destination box.
///
/// A stored point `(x, y)` maps to
/// `((x - fx0) * dnx / (sw * ddx) + lx0, (fy1 - y) * dny / (sh * ddy) + ly0)`,
/// which translates the source min corner to the origin, flips y, scales by
/// the rational factors `destW / srcW` and `destH / srcH`, and aligns the
/// image's min corner with the destination's min corner.
#[derive(Clone, Copy, PartialEq, Eq, Structural, Debug)]
pub struct CoordinateMapper {
    /// Source min x and max y, in stored units.
    pub fx0: i64,
    pub fy1: i64,
    /// Source width and height, in stored units.
    pub sw: i64,
    pub sh: i64,
    /// Destination min corner.
    pub lx0: Q,
    pub ly0: Q,
    /// Destination width and height as rationals `dnx / ddx`, `dny / ddy`.
    pub dnx: i128,
    pub ddx: i128,
    pub dny: i128,
    pub ddy: i128,
}

pub open spec fn mapper_wf(m: CoordinateMapper) -> bool {
    &&& 0 < m.sw <= 600_000_000
    &&& 0 < m.sh <= 600_000_000
    &&& -300_000_000 <= m.fx0 <= 300_000_000
    &&& -300_000_000 <= m.fy1 <= 300_000_000
    &&& 0 < m.dnx <= 4_000_000_000_000_000_000
    &&& 0 < m.ddx <= 1_000_000_000_000
    &&& 0 < m.dny <= 4_000_000_000_000_000_000
    &&& 0 < m.ddy <= 1_000_000_000_000
    &&& q_box_small(m.lx0)
    &&& q_box_small(m.ly0)
}

/// The mapper computed from a source and destination box.
pub open spec fn mapper_from(src: DesignBox, dst: QBox, m: CoordinateMapper) -> bool {
    &&& m.fx0 == 3 * src.x0
    &&& m.fy1 == 3 * src.y1
    &&& m.sw == 3 * src.x1 - 3 * src.x0
    &&& m.sh == 3 * src.y1 - 3 * src.y0
    &&& m.lx0 == dst.x0
    &&& m.ly0 == dst.y0
    &&& m.dnx == dst.x1.num * dst.x0.den - dst.x0.num * dst.x1.den
    &&& m.ddx == dst.x1.den * dst.x0.den
    &&& m.dny == dst.y1.num * dst.y0.den - dst.y0.num * dst.y1.den
    &&& m.ddy == dst.y1.den * dst.y0.den
}

/// Numerator and denominator of the mapped x coordinate of stored `x`.
pub open spec fn map_x_num(m: CoordinateMapper, x: int) -> int {
    (x - m.fx0) * m.dnx * m.lx0.den + m.lx0.num * m.sw * m.ddx
}

pub open spec fn map_x_den(m: CoordinateMapper) -> int {
    m.sw * m.ddx * m.lx0.den
}

/// Numerator and denominator of the mapped y coordinate of stored `y`; the
/// flip makes the image's y grow downward as the source's y grows upward.
pub open spec fn map_y_num(m: CoordinateMapper, y: int) -> int {
    (m.fy1 - y) * m.dny * m.ly0.den + m.ly0.num * m.sh * m.ddy
}

pub open spec fn map_y_den(m: CoordinateMapper) -> int {
    m.sh * m.ddy * m.ly0.den
}

/// Numerator of the linear (offset) part along x over the same denominator
/// `map_x_den`.
pub open spec fn map_dx_num(m: CoordinateMapper, dx: int) -> int {
    dx * m.dnx * m.lx0.den
}

/// Numerator of the linear (offset) part along y over the same denominator
/// `map_y_den`; negated by the flip.
pub open spec fn map_dy_num(m: CoordinateMapper, dy: int) -> int {
    -dy * m.dny * m.ly0.den
}

impl CoordinateMapper {
    /// Build the transform from the font design box into the destination box.
    ///
    /// Returns `InvalidBox` exactly when either box has non-positive width or
    /// height.
    pub fn new(src: &DesignBox, dst: &QBox) -> (r: Result<CoordinateMapper, crate::Error>)
        requires
            design_box_in_range(*src),
            qbox_small(*dst),
        ensures
            r is Ok <==> design_box_valid(*src) && qbox_valid(*dst),
            r matches Err(e) ==> e == crate::Error::InvalidBox,
            r matches Ok(m) ==> mapper_from(*src, *dst, m) && mapper_wf(m),
    {
        if !(src.x0 < src.x1 && src.y0 < src.y1) {
            return Err(crate::Error::InvalidBox);
        }
        if !(q_lt_exec(&dst.x0, &dst.x1) && q_lt_exec(&dst.y0, &dst.y1)) {
            return Err(crate::Error::InvalidBox);
        }
        let dnx = mul_i128(dst.x1.num, dst.x0.den, Ghost(2_000_000_000_000int), Ghost(
            1_000_000int,
        )) - mul_i128(dst.x0.num, dst.x1.den, Ghost(2_000_000_000_000int), Ghost(1_000_000int));
        let ddx = mul_i128(dst.x1.den, dst.x0.den, Ghost(1_000_000int), Ghost(1_000_000int));
        let dny = mul_i128(dst.y1.num, dst.y0.den, Ghost(2_000_000_000_000int), Ghost(
            1_000_000int,
        )) - mul_i128(dst.y0.num, dst.y1.den, Ghost(2_000_000_000_000int), Ghost(1_000_000int));
        let ddy = mul_i128(dst.y1.den, dst.y0.den, Ghost(1_000_000int), Ghost(1_000_000int));
        proof {
            assert(ddx > 0 && ddy > 0) by (nonlinear_arith)
                requires
                    ddx == dst.x1.den * dst.x0.den,
                    ddy == dst.y1.den * dst.y0.den,
                    dst.x0.den > 0,
                    dst.x1.den > 0,
                    dst.y0.den > 0,
                    dst.y1.den > 0,
            ;
        }
        Ok(
            CoordinateMapper {
                fx0: 3 * src.x0,
                fy1: 3 * src.y1,
                sw: 3 * src.x1 - 3 * src.x0,
                sh: 3 * src.y1 - 3 * src.y0,
                lx0: dst.x0,
                ly0: dst.y0,
                dnx,
                ddx,
                dny,
                ddy,
            },
        )
    }

    /// Map a stored x coordinate into the destination space.
    pub fn map_x(&self, x: i64) -> (r: Q)
        requires
            mapper_wf(*self),
            -CTRL_LIMIT <= x <= CTRL_LIMIT,
        ensures
            r.num == map_x_num(*self, x as int),
            r.den == map_x_den(*self),
            r.den > 0,
            -10_000_000_000_000_000_000_000_000_000_000_000 <= r.num
                <= 10_000_000_000_000_000_000_000_000_000_000_000,
            r.den <= 1_000_000_000_000_000_000_000_000_000,
    {
        let dx = x as i128 - self.fx0 as i128;
        let t1 = mul_i128(dx, self.dnx, Ghost(2_000_000_000int), Ghost(
            4_000_000_000_000_000_000int,
        ));
        let t2 = mul_i128(t1, self.lx0.den, Ghost(8_000_000_000_000_000_000_000_000_000int), Ghost(
            1_000_000int,
        ));
        let t3 = mul_i128(self.lx0.num, self.sw as i128, Ghost(2_000_000_000_000int), Ghost(
            600_000_000int,
        ));
        let t4 = mul_i128(t3, self.ddx, Ghost(1_200_000_000_000_000_000_000int), Ghost(
            1_000_000_000_000int,
        ));
        let num = t2 + t4;
        let d1 = mul_i128(self.sw as i128, self.ddx, Ghost(600_000_000int), Ghost(
            1_000_000_000_000int,
        ));
        let den = mul_i128(d1, self.lx0.den, Ghost(600_000_000_000_000_000_000int), Ghost(
            1_000_000int,
        ));
        proof {
            assert(den > 0) by (nonlinear_arith)
                requires
                    den == (self.sw as int) * self.ddx * self.lx0.den,
                    self.sw > 0,
                    self.ddx > 0,
                    self.lx0.den > 0,
            ;
        }
        Q { num, den }
    }

    /// Map a stored y coordinate into the destination space.
    pub fn map_y(&self, y: i64) -> (r: Q)
        requires
            mapper_wf(*self),
            -CTRL_LIMIT <= y <= CTRL_LIMIT,
        ensures
            r.num == map_y_num(*self, y as int),
            r.den == map_y_den(*self),
            r.den > 0,
            -10_000_000_000_000_000_000_000_000_000_000_000 <= r.num
                <= 10_000_000_000_000_000_000_000_000_000_000_000,
            r.den <= 1_000_000_000_000_000_000_000_000_000,
    {
        let dy = self.fy1 as i128 - y as i128;
        let t1 = mul_i128(dy, self.dny, Ghost(2_000_000_000int), Ghost(
            4_000_000_000_000_000_000int,
        ));
        let t2 = mul_i128(t1, self.ly0.den, Ghost(8_000_000_000_000_000_000_000_000_000int), Ghost(
            1_000_000int,
        ));
        let t3 = mul_i128(self.ly0.num, self.sh as i128, Ghost(2_000_000_000_000int), Ghost(
            600_000_000int,
        ));
        let t4 = mul_i128(t3, self.ddy, Ghost(1_200_000_000_000_000_000_000int), Ghost(
            1_000_000_000_000int,
        ));
        let num = t2 + t4;
        let d1 = mul_i128(self.sh as i128, self.ddy, Ghost(600_000_000int), Ghost(
            1_000_000_000_000int,
        ));
        let den = mul_i128(d1, self.ly0.den, Ghost(600_000_000_000_000_000_000int), Ghost(
            1_000_000int,
        ));
        proof {
            assert(den > 0) by (nonlinear_arith)
                requires
                    den == (self.sh as int) * self.ddy * self.ly0.den,
                    self.sh > 0,
                    self.ddy > 0,
                    self.ly0.den > 0,
            ;
        }
        Q { num, den }
    }

    /// Map an offset along x (the linear part only), over `map_x_den`.
    pub fn map_dx(&self, dx: i64) -> (r: i128)
        requires
            mapper_wf(*self),
            -2 * CTRL_LIMIT <= dx <= 2 * CTRL_LIMIT,
        ensures
            r == map_dx_num(*self, dx as int),
            -10_000_000_000_000_000_000_000_000_000_000_000 <= r
                <= 10_000_000_000_000_000_000_000_000_000_000_000,
    {
        let t1 = mul_i128(dx as i128, self.dnx, Ghost(2_000_000_000int), Ghost(
            4_000_000_000_000_000_000int,
        ));
        mul_i128(t1, self.lx0.den, Ghost(8_000_000_000_000_000_000_000_000_000int), Ghost(
            1_000_000int,
        ))
    }

    /// Map an offset along y (the linear part only, flipped), over
    /// `map_y_den`.
    pub fn map_dy(&self, dy: i64) -> (r: i128)
        requires
            mapper_wf(*self),
            -2 * CTRL_LIMIT <= dy <= 2 * CTRL_LIMIT,
        ensures
            r == map_dy_num(*self, dy as int),
            -10_000_000_000_000_000_000_000_000_000_000_000 <= r
                <= 10_000_000_000_000_000_000_000_000_000_000_000,
    {
        let t1 = mul_i128(-(dy as i128), self.dny, Ghost(2_000_000_000int), Ghost(
            4_000_000_000_000_000_000int,
        ));
        mul_i128(t1, self.ly0.den, Ghost(8_000_000_000_000_000_000_000_000_000int), Ghost(
            1_000_000int,
        ))
    }
}

/// Two ratios of integers are equal as numbers.
pub open spec fn ratio_eq(an: int, ad: int, bn: int, bd: int) -> bool {
    an * bd == bn * ad
}

/// Ring identity behind the far-corner mapping: adding the full source width
/// scales exactly to the far destination side.
proof fn lemma_far_corner(sw: int, dn: int, dd: int, l0n: int, l0d: int, l1n: int, l1d: int)
    requires
        dn == l1n * l0d - l0n * l1d,
        dd == l1d * l0d,
    ensures
        (sw * dn * l0d + l0n * sw * dd) * l1d == l1n * (sw * dd * l0d),
{
    let u = sw * l0d;
    let w = l1n * l0d;
    assert(sw * dn * l0d == u * dn) by (nonlinear_arith)
        requires
            u == sw * l0d,
    ;
    assert(l0n * sw * dd == u * (l0n * l1d)) by (nonlinear_arith)
        requires
            u == sw * l0d,
            dd == l1d * l0d,
    ;
    assert((u * dn + u * (l0n * l1d)) * l1d == u * w * l1d) by (nonlinear_arith)
        requires
            dn + l0n * l1d == w,
    ;
    assert(l1n * (sw * dd * l0d) == u * w * l1d) by (nonlinear_arith)
        requires
            u == sw * l0d,
            dd == l1d * l0d,
            w == l1n * l0d,
    ;
}

/// The four corners of the source box land exactly on the four corners of the
/// destination box: min x maps to min x, max x to max x, and — because of the
/// flip — max y maps to min y and min y to max y.
pub proof fn lemma_corners_map(src: DesignBox, dst: QBox, m: CoordinateMapper)
    requires
        mapper_from(src, dst, m),
        mapper_wf(m),
    ensures
        ratio_eq(
            map_x_num(m, 3 * src.x0),
            map_x_den(m),
            dst.x0.num as int,
            dst.x0.den as int,
        ),
        ratio_eq(
            map_x_num(m, 3 * src.x1),
            map_x_den(m),
            dst.x1.num as int,
            dst.x1.den as int,
        ),
        ratio_eq(
            map_y_num(m, 3 * src.y1),
            map_y_den(m),
            dst.y0.num as int,
            dst.y0.den as int,
        ),
        ratio_eq(
            map_y_num(m, 3 * src.y0),
            map_y_den(m),
            dst.y1.num as int,
            dst.y1.den as int,
        ),
{
    let l0n = dst.x0.num as int;
    let l0d = dst.x0.den as int;
    let l1n = dst.x1.num as int;
    let l1d = dst.x1.den as int;
    let sw = m.sw as int;
    let dnx = m.dnx as int;
    let ddx = m.ddx as int;
    // near x corner: the width term vanishes
    assert(map_x_num(m, 3 * src.x0) == l0n * sw * ddx) by (nonlinear_arith)
        requires
            map_x_num(m, 3 * src.x0) == (3 * src.x0 - m.fx0) * dnx * l0d + l0n * sw * ddx,
            m.fx0 == 3 * src.x0,
    ;
    assert((l0n * sw * ddx) * l0d == l0n * (sw * ddx * l0d)) by (nonlinear_arith);
    // far x corner
    assert(map_x_num(m, 3 * src.x1) == sw * dnx * l0d + l0n * sw * ddx) by (nonlinear_arith)
        requires
            map_x_num(m, 3 * src.x1) == (3 * src.x1 - m.fx0) * dnx * l0d + l0n * sw * ddx,
            m.fx0 == 3 * src.x0,
            sw == 3 * src.x1 - 3 * src.x0,
    ;
    lemma_far_corner(sw, dnx, ddx, l0n, l0d, l1n, l1d);
    let k0n = dst.y0.num as int;
    let k0d = dst.y0.den as int;
    let k1n = dst.y1.num as int;
    let k1d = dst.y1.den as int;
    let sh = m.sh as int;
    let dny = m.dny as int;
    let ddy = m.ddy as int;
    // near y corner: the source max y maps to the destination min y
    assert(map_y_num(m, 3 * src.y1) == k0n * sh * ddy) by (nonlinear_arith)
        requires
            map_y_num(m, 3 * src.y1) == (m.fy1 - 3 * src.y1) * dny * k0d + k0n * sh * ddy,
            m.fy1 == 3 * src.y1,
    ;
    assert((k0n * sh * ddy) * k0d == k0n * (sh * ddy * k0d)) by (nonlinear_arith);
    // far y corner: the source min y maps to the destination max y
    assert(map_y_num(m, 3 * src.y0) == sh * dny * k0d + k0n * sh * ddy) by (nonlinear_arith)
        requires
            map_y_num(m, 3 * src.y0) == (m.fy1 - 3 * src.y0) * dny * k0d + k0n * sh * ddy,
            m.fy1 == 3 * src.y1,
            sh == 3 * src.y1 - 3 * src.y0,
    ;
    lemma_far_corner(sh, dny, ddy, k0n, k0d, k1n, k1d);
}

/// Numerator of the determinant of the linear part of the map.
pub open spec fn det_num(m: CoordinateMapper) -> int {
    -(m.dnx * m.dny)
}

/// Denominator of the determinant of the linear part of the map.
pub open spec fn det_den(m: CoordinateMapper) -> int {
    (m.sw * m.ddx) * (m.sh * m.ddy)
}

/// The determinant of the mapping is negative: the scale factors are
/// positive and exactly one axis is flipped, so the map reverses orientation.
pub proof fn lemma_determinant_negative(m: CoordinateMapper)
    requires
        mapper_wf(m),
    ensures
        det_num(m) < 0,
        det_den(m) > 0,
{
    assert(-(m.dnx * m.dny) < 0 && (m.sw * m.ddx) * (m.sh * m.ddy) > 0) by (nonlinear_arith)
        requires
            m.dnx > 0,
            m.dny > 0,
            m.sw > 0,
            m.ddx > 0,
            m.sh > 0,
            m.ddy > 0,
    ;
}

} // verus!
