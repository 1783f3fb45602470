//! Simple algorithmic animations: pulse and twirl, whole-icon or per-part,
//! with staggered timing and a fixed non-hold easing.

use vstd::prelude::*;
use crate::geom::{box_join, BBox};
use crate::group::{filled_flags, group_icon_parts, spec_groups, spec_order, to_ints, SortKey};
use crate::mapper::{
    map_dx_num, map_dy_num, map_x_den, map_x_num, map_y_den, map_y_num, mapper_wf, q_lt, q_small,
    CoordinateMapper, Q,
};
use crate::math::mul_i128;
use crate::outline::{cbox, outline_wf, subv_wf, SubV, Subpath};
use crate::template::{
    item_view, items_view, BezierEase, EasePt, FillShape, GroupNode, GroupV, ItemV, Keyframe,
    KeyframeV, Pt128, QPt, ShapeItem, SubPathShape, Track, TrackV, TransformShape, TransformV,
};

verus! {

/// The animation kinds the library can attach to generated content.
#[derive(Clone, Copy, PartialEq, Eq, Structural, Debug)]
pub enum Animation {
    Still,
    PulseWhole,
    PulseParts,
    TwirlWhole,
    TwirlParts,
}

/// The fixed non-hold easing attached to every generated keyframe: incoming
/// handle (0.6, 1.0), outgoing handle (0.4, 0.0), in thousandths.
pub open spec fn spec_default_ease() -> BezierEase {
    BezierEase {
        in_val: EasePt { x: 600, y: 1000 },
        out_val: EasePt { x: 400, y: 0 },
    }
}

/// The bezier ease every generated keyframe uses; flat interpolation renders
/// incorrectly in the target format, so a non-hold ease is always attached.
pub fn default_ease() -> (r: BezierEase)
    ensures
        r == spec_default_ease(),
{
    BezierEase { in_val: EasePt { x: 600, y: 1000 }, out_val: EasePt { x: 400, y: 0 } }
}

/// The time `j * 0.2 * (end - start)` past `start * 0`, as an exact rational:
/// keyframe `k` of group `i` sits at stagger step `j = i + k`.
pub open spec fn stagger_time(start: Q, end: Q, j: int) -> Q {
    Q {
        num: ((end.num * start.den - start.num * end.den) * j) as i128,
        den: (end.den * start.den * 5) as i128,
    }
}

/// Exec computation of `stagger_time`.
pub fn stagger_time_exec(start: &Q, end: &Q, j: usize, extra: usize) -> (r: Q)
    requires
        q_small(*start),
        q_small(*end),
        j <= 100_000_000,
        extra <= 2,
    ensures
        r == stagger_time(*start, *end, j + extra),
{
    let t1 = mul_i128(end.num, start.den, Ghost(1_000_000_000_000int), Ghost(1_000_000int));
    let t2 = mul_i128(start.num, end.den, Ghost(1_000_000_000_000int), Ghost(1_000_000int));
    let tnum = t1 - t2;
    let jj = (j + extra) as i128;
    let num = mul_i128(tnum, jj, Ghost(2_000_000_000_000_000_000int), Ghost(100_000_002int));
    let d1 = mul_i128(end.den, start.den, Ghost(1_000_000int), Ghost(1_000_000int));
    let den = 5 * d1;
    Q { num, den }
}

/// The image of one subpath under the coordinate mapping: every vertex
/// numerator is the mapped coordinate, offsets go through the linear part,
/// and the winding direction marker accounts for the orientation flip (a
/// clockwise source cycle has negative stored area and renders clockwise in
/// the y-down destination, marker 1; otherwise marker 3).
pub open spec fn shape_of(s: SubV, m: CoordinateMapper) -> crate::template::ShapeV {
    crate::template::ShapeV {
        vertices: Seq::new(
            s.vertices.len(),
            |k: int|
                Pt128 {
                    x: map_x_num(m, s.vertices[k].x as int) as i128,
                    y: map_y_num(m, s.vertices[k].y as int) as i128,
                },
        ),
        out_off: Seq::new(
            s.out_off.len(),
            |k: int|
                Pt128 {
                    x: map_dx_num(m, s.out_off[k].x as int) as i128,
                    y: map_dy_num(m, s.out_off[k].y as int) as i128,
                },
        ),
        in_off: Seq::new(
            s.in_off.len(),
            |k: int|
                Pt128 {
                    x: map_dx_num(m, s.in_off[k].x as int) as i128,
                    y: map_dy_num(m, s.in_off[k].y as int) as i128,
                },
        ),
        den_x: map_x_den(m) as i128,
        den_y: map_y_den(m) as i128,
        closed: s.closed,
        direction: if crate::geom::turn_direction(s.vertices) == 1 {
            1
        } else {
            3
        },
    }
}

/// Map one subpath into the destination space.
pub fn shape_from(sub: &Subpath, m: &CoordinateMapper) -> (r: SubPathShape)
    requires
        subv_wf(sub@),
        mapper_wf(*m),
    ensures
        r@ == shape_of(sub@, *m),
{
    let n = sub.vertices.len();
    let mut vertices: Vec<Pt128> = Vec::new();
    let mut out_off: Vec<Pt128> = Vec::new();
    let mut in_off: Vec<Pt128> = Vec::new();
    let mut k: usize = 0;
    while k < n
        invariant
            subv_wf(sub@),
            mapper_wf(*m),
            n == sub@.vertices.len(),
            0 <= k <= n,
            vertices@.len() == k,
            out_off@.len() == k,
            in_off@.len() == k,
            forall|t: int| 0 <= t < k ==> vertices@[t] == shape_of(sub@, *m).vertices[t],
            forall|t: int| 0 <= t < k ==> out_off@[t] == shape_of(sub@, *m).out_off[t],
            forall|t: int| 0 <= t < k ==> in_off@[t] == shape_of(sub@, *m).in_off[t],
        decreases n - k,
    {
        let v = sub.vertices[k];
        let o = sub.out_off[k];
        let io = sub.in_off[k];
        vertices.push(Pt128 { x: m.map_x(v.x).num, y: m.map_y(v.y).num });
        out_off.push(Pt128 { x: m.map_dx(o.x), y: m.map_dy(o.y) });
        in_off.push(Pt128 { x: m.map_dx(io.x), y: m.map_dy(io.y) });
        k = k + 1;
    }
    let den_x = m.map_x(0).den;
    let den_y = m.map_y(0).den;
    let a2 = crate::geom::area2_of(&sub.vertices);
    let direction: u8 = if a2 < 0 {
        1
    } else {
        3
    };
    let r = SubPathShape { vertices, out_off, in_off, den_x, den_y, closed: sub.closed, direction };
    proof {
        assert(r@ =~~= shape_of(sub@, *m));
    }
    r
}

/// Union of the control boxes of the first `t` member subpaths.
pub open spec fn members_cbox_upto(ss: Seq<SubV>, members: Seq<int>, t: int) -> BBox
    decreases t,
{
    if t <= 1 {
        cbox(ss[members[0]])
    } else {
        box_join(members_cbox_upto(ss, members, t - 1), cbox(ss[members[t - 1]]))
    }
}

/// Union of the control boxes of all member subpaths.
pub open spec fn members_cbox(ss: Seq<SubV>, members: Seq<int>) -> BBox {
    members_cbox_upto(ss, members, members.len() as int)
}

/// The center of the mapped bounding box of the members, one axis: the mean
/// of the two mapped box sides.
pub open spec fn center_x(m: CoordinateMapper, b: BBox) -> Q {
    Q {
        num: (map_x_num(m, b.x0 as int) + map_x_num(m, b.x1 as int)) as i128,
        den: (2 * map_x_den(m)) as i128,
    }
}

pub open spec fn center_y(m: CoordinateMapper, b: BBox) -> Q {
    Q {
        num: (map_y_num(m, b.y0 as int) + map_y_num(m, b.y1 as int)) as i128,
        den: (2 * map_y_den(m)) as i128,
    }
}

/// The anchor (and position) of a generated group: the center of the mapped
/// union box of its members, or the origin for an empty member list.
pub open spec fn anchor_of(ss: Seq<SubV>, members: Seq<int>, m: CoordinateMapper) -> QPt {
    if members.len() == 0 {
        QPt { x: Q { num: 0, den: 1 }, y: Q { num: 0, den: 1 } }
    } else {
        QPt {
            x: center_x(m, members_cbox(ss, members)),
            y: center_y(m, members_cbox(ss, members)),
        }
    }
}

/// Compute the anchor of a member list.
fn build_anchor(subs: &Vec<Subpath>, members: &Vec<usize>, m: &CoordinateMapper) -> (r: QPt)
    requires
        outline_wf(subs@.map_values(|s: Subpath| s@)),
        mapper_wf(*m),
        forall|j: int| 0 <= j < members@.len() ==> (#[trigger] members@[j]) < subs@.len(),
    ensures
        r == anchor_of(subs@.map_values(|s: Subpath| s@), to_ints(members@), *m),
{
    let ghost views = subs@.map_values(|s: Subpath| s@);
    let ghost mem = to_ints(members@);
    if members.len() == 0 {
        return QPt { x: Q { num: 0, den: 1 }, y: Q { num: 0, den: 1 } };
    }
    proof {
        assert(views[mem[0]] == subs@[members@[0] as int]@);
    }
    let mut b = crate::outline::control_box(&subs[members[0]]);
    let n = members.len();
    let mut t: usize = 1;
    while t < n
        invariant
            views == subs@.map_values(|s: Subpath| s@),
            mem == to_ints(members@),
            outline_wf(views),
            mapper_wf(*m),
            n == members@.len(),
            forall|j: int| 0 <= j < members@.len() ==> (#[trigger] members@[j]) < subs@.len(),
            1 <= t <= n,
            b == members_cbox_upto(views, mem, t as int),
            crate::geom::box_in_ctrl_range(b),
        decreases n - t,
    {
        proof {
            assert(views[mem[t as int]] == subs@[members@[t as int] as int]@);
        }
        let nb = crate::outline::control_box(&subs[members[t]]);
        b = crate::geom::box_join_exec(&b, &nb);
        t = t + 1;
    }
    let cx = Q { num: m.map_x(b.x0).num + m.map_x(b.x1).num, den: 2 * m.map_x(0).den };
    let cy = Q { num: m.map_y(b.y0).num + m.map_y(b.y1).num, den: 2 * m.map_y(0).den };
    QPt { x: cx, y: cy }
}

/// The three scale keyframes of a pulse for stagger index `i`: 100% at step
/// `i`, 150% at step `i + 1`, back to 100% at step `i + 2`.
pub open spec fn pulse_track(start: Q, end: Q, i: int) -> Seq<KeyframeV> {
    seq![
        KeyframeV {
            time: stagger_time(start, end, i),
            value: seq![100i64, 100i64],
            ease: spec_default_ease(),
        },
        KeyframeV {
            time: stagger_time(start, end, i + 1),
            value: seq![150i64, 150i64],
            ease: spec_default_ease(),
        },
        KeyframeV {
            time: stagger_time(start, end, i + 2),
            value: seq![100i64, 100i64],
            ease: spec_default_ease(),
        },
    ]
}

/// The two rotation keyframes of a twirl for stagger index `i`: 0 degrees at
/// step `i`, 360 degrees at step `i + 2`.
pub open spec fn twirl_track(start: Q, end: Q, i: int) -> Seq<KeyframeV> {
    seq![
        KeyframeV {
            time: stagger_time(start, end, i),
            value: seq![0i64],
            ease: spec_default_ease(),
        },
        KeyframeV {
            time: stagger_time(start, end, i + 2),
            value: seq![360i64],
            ease: spec_default_ease(),
        },
    ]
}

/// The mapped shapes of the members, as document items.
pub open spec fn shapes_of_members(ss: Seq<SubV>, members: Seq<int>, m: CoordinateMapper) -> Seq<
    ItemV,
> {
    Seq::new(members.len(), |j: int| ItemV::Shape(shape_of(ss[members[j]], m)))
}

/// The generated group around a member list: the mapped shapes, a half
/// opacity fill, and a transform whose anchor and position both sit at the
/// members' center.
pub open spec fn animated_group(
    ss: Seq<SubV>,
    members: Seq<int>,
    m: CoordinateMapper,
    scale: TrackV,
    rotation: TrackV,
) -> ItemV {
    ItemV::Group(
        GroupV {
            placeholder: false,
            items: shapes_of_members(ss, members, m).push(
                ItemV::Fill(FillShape { opacity: Q { num: 50, den: 1 } }),
            ).push(
                ItemV::Transform(
                    TransformV {
                        anchor: anchor_of(ss, members, m),
                        position: anchor_of(ss, members, m),
                        scale,
                        rotation,
                    },
                ),
            ),
        },
    )
}

/// The pulse group for stagger index `i`: an animated scale track and a fixed
/// zero rotation.
pub open spec fn spec_pulse(
    ss: Seq<SubV>,
    members: Seq<int>,
    m: CoordinateMapper,
    start: Q,
    end: Q,
    i: int,
) -> ItemV {
    animated_group(
        ss,
        members,
        m,
        TrackV::Animated(pulse_track(start, end, i)),
        TrackV::Fixed(seq![Q { num: 0, den: 1 }]),
    )
}

/// The twirl group for stagger index `i`: an animated rotation track and a
/// fixed full scale.
pub open spec fn spec_twirl(
    ss: Seq<SubV>,
    members: Seq<int>,
    m: CoordinateMapper,
    start: Q,
    end: Q,
    i: int,
) -> ItemV {
    animated_group(
        ss,
        members,
        m,
        TrackV::Fixed(seq![Q { num: 100, den: 1 }, Q { num: 100, den: 1 }]),
        TrackV::Animated(twirl_track(start, end, i)),
    )
}

/// Common requirements of the animators: well-formed inputs and a forward
/// time window (the animation runs from `start` to a strictly later `end`).
pub open spec fn animate_pre(
    subs: Seq<SubV>,
    m: CoordinateMapper,
    start: Q,
    end: Q,
) -> bool {
    &&& outline_wf(subs)
    &&& mapper_wf(m)
    &&& q_small(start)
    &&& q_small(end)
    &&& q_lt(start, end)
    &&& subs.len() <= 100_000_000
}

/// Build the fill item every generated group carries.
fn build_fill() -> (r: ShapeItem)
    ensures
        item_view(r) == ItemV::Fill(FillShape { opacity: Q { num: 50, den: 1 } }),
{
    ShapeItem::Fill(FillShape { opacity: Q { num: 50, den: 1 } })
}

/// Build one animated group around the member subpaths.
fn build_group(
    subs: &Vec<Subpath>,
    members: &Vec<usize>,
    m: &CoordinateMapper,
    start: &Q,
    end: &Q,
    i: usize,
    twirl_kind: bool,
) -> (r: ShapeItem)
    requires
        animate_pre(subs@.map_values(|s: Subpath| s@), *m, *start, *end),
        forall|j: int| 0 <= j < members@.len() ==> (#[trigger] members@[j]) < subs@.len(),
        i <= 100_000_000,
    ensures
        item_view(r) == if twirl_kind {
            spec_twirl(
                subs@.map_values(|s: Subpath| s@),
                to_ints(members@),
                *m,
                *start,
                *end,
                i as int,
            )
        } else {
            spec_pulse(
                subs@.map_values(|s: Subpath| s@),
                to_ints(members@),
                *m,
                *start,
                *end,
                i as int,
            )
        },
{
    let ghost views = subs@.map_values(|s: Subpath| s@);
    let ghost mem = to_ints(members@);
    let n = members.len();
    let mut items: Vec<ShapeItem> = Vec::new();
    let mut j: usize = 0;
    while j < n
        invariant
            views == subs@.map_values(|s: Subpath| s@),
            mem == to_ints(members@),
            animate_pre(views, *m, *start, *end),
            forall|t: int| 0 <= t < members@.len() ==> (#[trigger] members@[t]) < subs@.len(),
            n == members@.len(),
            0 <= j <= n,
            items@.len() == j,
            forall|t: int|
                0 <= t < j ==> item_view(#[trigger] items@[t]) == shapes_of_members(
                    views,
                    mem,
                    *m,
                )[t],
        decreases n - j,
    {
        proof {
            assert(views[mem[j as int]] == subs@[members@[j as int] as int]@);
        }
        let sh = shape_from(&subs[members[j]], m);
        items.push(ShapeItem::Shape(sh));
        j = j + 1;
    }
    items.push(build_fill());
    let anchor = build_anchor(subs, members, m);
    let ease = default_ease();
    let transform = if twirl_kind {
        let mut kfs: Vec<Keyframe> = Vec::new();
        let mut v0: Vec<i64> = Vec::new();
        v0.push(0);
        kfs.push(Keyframe { time: stagger_time_exec(start, end, i, 0), value: v0, ease });
        let mut v1: Vec<i64> = Vec::new();
        v1.push(360);
        kfs.push(Keyframe { time: stagger_time_exec(start, end, i, 2), value: v1, ease });
        let mut scale_fixed: Vec<Q> = Vec::new();
        scale_fixed.push(Q { num: 100, den: 1 });
        scale_fixed.push(Q { num: 100, den: 1 });
        TransformShape {
            anchor,
            position: anchor,
            scale: Track::Fixed(scale_fixed),
            rotation: Track::Animated(kfs),
        }
    } else {
        let mut kfs: Vec<Keyframe> = Vec::new();
        let mut v0: Vec<i64> = Vec::new();
        v0.push(100);
        v0.push(100);
        kfs.push(Keyframe { time: stagger_time_exec(start, end, i, 0), value: v0, ease });
        let mut v1: Vec<i64> = Vec::new();
        v1.push(150);
        v1.push(150);
        kfs.push(Keyframe { time: stagger_time_exec(start, end, i, 1), value: v1, ease });
        let mut v2: Vec<i64> = Vec::new();
        v2.push(100);
        v2.push(100);
        kfs.push(Keyframe { time: stagger_time_exec(start, end, i, 2), value: v2, ease });
        let mut rot_fixed: Vec<Q> = Vec::new();
        rot_fixed.push(Q { num: 0, den: 1 });
        TransformShape {
            anchor,
            position: anchor,
            scale: Track::Animated(kfs),
            rotation: Track::Fixed(rot_fixed),
        }
    };
    proof {
        if twirl_kind {
            assert(transform@.rotation =~~= TrackV::Animated(
                twirl_track(*start, *end, i as int),
            ));
            assert(transform@.scale =~~= TrackV::Fixed(
                seq![Q { num: 100, den: 1 }, Q { num: 100, den: 1 }],
            ));
        } else {
            assert(transform@.scale =~~= TrackV::Animated(pulse_track(*start, *end, i as int)));
            assert(transform@.rotation =~~= TrackV::Fixed(seq![Q { num: 0, den: 1 }]));
        }
    }
    items.push(ShapeItem::Transform(transform));
    let r = ShapeItem::Group(GroupNode { placeholder: false, items });
    proof {
        let views2 = subs@.map_values(|s: Subpath| s@);
        let target = if twirl_kind {
            spec_twirl(views2, to_ints(members@), *m, *start, *end, i as int)
        } else {
            spec_pulse(views2, to_ints(members@), *m, *start, *end, i as int)
        };
        match &r {
            ShapeItem::Group(g) => {
                crate::template::lemma_items_view_len(g.items@);
                match target {
                    ItemV::Group(gv) => {
                        assert(items_view(g.items@) =~~= gv.items);
                        assert(GroupV { placeholder: false, items: items_view(g.items@) } =~= gv);
                        assert(item_view(r) == ItemV::Group(
                            GroupV { placeholder: false, items: items_view(g.items@) },
                        ));
                    },
                    _ => {
                        assert(false);
                    },
                }
            },
            _ => {},
        }
        assert(item_view(r) == target);
    }
    r
}

/// Keyframe times of a staggered track: shifting the stagger index by `i`
/// shifts every keyframe time by exactly `i * 0.2 * (end - start)`. In
/// particular, group `i`'s pulse keyframe times equal group 0's times
/// shifted by `i * 0.2 * (end - start)`, which is `stagger_time(start, end,
/// i)` itself.
pub proof fn lemma_pulse_stagger(start: Q, end: Q, i: int, k: int)
    requires
        q_small(start),
        q_small(end),
        0 <= i,
        0 <= k,
        i + k <= 200_000_002,
    ensures
        crate::mapper::ratio_eq(
            stagger_time(start, end, i + k).num * stagger_time(start, end, k).den - stagger_time(
                start,
                end,
                k,
            ).num * stagger_time(start, end, i + k).den,
            stagger_time(start, end, i + k).den * stagger_time(start, end, k).den,
            stagger_time(start, end, i).num as int,
            stagger_time(start, end, i).den as int,
        ),
{
    let t = end.num * start.den - start.num * end.den;
    let d = end.den * start.den * 5;
    let a = stagger_time(start, end, i + k);
    let b = stagger_time(start, end, k);
    let c = stagger_time(start, end, i);
    assert(a.num == t * (i + k) && b.num == t * k && c.num == t * i && a.den == d && b.den == d
        && c.den == d) by (nonlinear_arith)
        requires
            -1_000_000_000_000 <= start.num <= 1_000_000_000_000,
            0 < start.den <= 1_000_000,
            -1_000_000_000_000 <= end.num <= 1_000_000_000_000,
            0 < end.den <= 1_000_000,
            0 <= i,
            0 <= k,
            i + k <= 200_000_002,
            t == end.num * start.den - start.num * end.den,
            d == end.den * start.den * 5,
            a == stagger_time(start, end, i + k),
            b == stagger_time(start, end, k),
            c == stagger_time(start, end, i),
    ;
    assert((t * (i + k) * d - t * k * d) * d == t * i * (d * d)) by (nonlinear_arith);
}

/// What a whole-icon pulse splices in place of a placeholder box, for any
/// glyph and any window: exactly one generated group holding the mapped
/// shapes, a fill, and a transform whose anchor and position coincide and
/// whose scale track has exactly 3 keyframes with values 100 -> 150 -> 100 at
/// times 0, 0.2 * (end - start) and 0.4 * (end - start), each with the fixed
/// ease.
pub proof fn lemma_pulse_whole_replacement(ss: Seq<SubV>, m: CoordinateMapper, start: Q, end: Q)
    requires
        q_small(start),
        q_small(end),
    ensures
        ({
            let items = spec_animate(Animation::PulseWhole, ss, m, start, end);
            &&& items.len() == 1
            &&& items[0] matches ItemV::Group(g) && {
                &&& !g.placeholder
                &&& g.items.len() == ss.len() + 2
                &&& forall|j: int| 0 <= j < ss.len() ==> (#[trigger] g.items[j]) is Shape
                &&& g.items[ss.len() as int] == ItemV::Fill(
                    FillShape { opacity: Q { num: 50, den: 1 } },
                )
                &&& g.items[ss.len() as int + 1] matches ItemV::Transform(t) && {
                    &&& t.anchor == t.position
                    &&& t.scale matches TrackV::Animated(kfs) && {
                        &&& kfs.len() == 3
                        &&& kfs[0].value == seq![100i64, 100i64]
                        &&& kfs[1].value == seq![150i64, 150i64]
                        &&& kfs[2].value == seq![100i64, 100i64]
                        &&& kfs[0].ease == spec_default_ease()
                        &&& kfs[1].ease == spec_default_ease()
                        &&& kfs[2].ease == spec_default_ease()
                        &&& kfs[0].time.num == 0
                        &&& crate::mapper::ratio_eq(
                            5 * kfs[1].time.num,
                            kfs[1].time.den as int,
                            end.num * start.den - start.num * end.den,
                            end.den * start.den,
                        )
                        &&& crate::mapper::ratio_eq(
                            5 * kfs[2].time.num,
                            kfs[2].time.den as int,
                            2 * (end.num * start.den - start.num * end.den),
                            end.den * start.den,
                        )
                    }
                }
            }
        }),
{
    let tn = end.num * start.den - start.num * end.den;
    let d = end.den * start.den;
    let t0 = stagger_time(start, end, 0);
    let t1 = stagger_time(start, end, 1);
    let t2 = stagger_time(start, end, 2);
    assert(t0.num == 0 && t1.num == tn && t2.num == 2 * tn && t1.den == 5 * d && t2.den == 5 * d)
        by (nonlinear_arith)
        requires
            -1_000_000_000_000 <= start.num <= 1_000_000_000_000,
            0 < start.den <= 1_000_000,
            -1_000_000_000_000 <= end.num <= 1_000_000_000_000,
            0 < end.den <= 1_000_000,
            tn == end.num * start.den - start.num * end.den,
            d == end.den * start.den,
            t0 == stagger_time(start, end, 0),
            t1 == stagger_time(start, end, 1),
            t2 == stagger_time(start, end, 2),
    ;
    assert((5 * tn) * d == tn * (5 * d)) by (nonlinear_arith);
    assert((5 * (2 * tn)) * d == (2 * tn) * (5 * d)) by (nonlinear_arith);
}

/// Shape emitted unmodified: no grouping, no transform.
pub struct Still;

/// Whole-icon pulse: one group, stagger index 0, animated scale.
pub struct Pulse;

/// Per-part pulse: one group per icon part, staggered by part index.
pub struct PulseParts;

/// Whole-icon twirl: one group, stagger index 0, animated rotation.
pub struct Twirl;

/// Per-part twirl: one group per icon part, staggered by part index.
pub struct TwirlParts;

/// The member list `0 .. n` in order.
pub open spec fn all_members(n: int) -> Seq<int> {
    Seq::new(n as nat, |j: int| j)
}

/// What each animation kind produces from the sorted subpaths of a glyph.
pub open spec fn spec_animate(
    anim: Animation,
    ss: Seq<SubV>,
    m: CoordinateMapper,
    start: Q,
    end: Q,
) -> Seq<ItemV> {
    match anim {
        Animation::Still => Seq::new(ss.len(), |j: int| ItemV::Shape(shape_of(ss[j], m))),
        Animation::PulseWhole => seq![spec_pulse(ss, all_members(ss.len() as int), m, start, end, 0)],
        Animation::TwirlWhole => seq![spec_twirl(ss, all_members(ss.len() as int), m, start, end, 0)],
        Animation::PulseParts => {
            let st = spec_groups(
                ss,
                filled_flags(ss),
                spec_order(SortKey::Grouping, ss, filled_flags(ss)),
            );
            Seq::new(
                st.prims.len(),
                |g: int| spec_pulse(ss, seq![st.prims[g]] + st.holes[g], m, start, end, g),
            )
        },
        Animation::TwirlParts => {
            let st = spec_groups(
                ss,
                filled_flags(ss),
                spec_order(SortKey::Grouping, ss, filled_flags(ss)),
            );
            Seq::new(
                st.prims.len(),
                |g: int| spec_twirl(ss, seq![st.prims[g]] + st.holes[g], m, start, end, g),
            )
        },
    }
}

impl Still {
    /// Emit the shapes unmodified.
    pub fn animate(
        &self,
        start: &Q,
        end: &Q,
        subs: &Vec<Subpath>,
        m: &CoordinateMapper,
    ) -> (r: Vec<ShapeItem>)
        requires
            animate_pre(subs@.map_values(|s: Subpath| s@), *m, *start, *end),
        ensures
            items_view(r@) == spec_animate(
                Animation::Still,
                subs@.map_values(|s: Subpath| s@),
                *m,
                *start,
                *end,
            ),
    {
        let ghost views = subs@.map_values(|s: Subpath| s@);
        let n = subs.len();
        let mut r: Vec<ShapeItem> = Vec::new();
        let mut j: usize = 0;
        while j < n
            invariant
                views == subs@.map_values(|s: Subpath| s@),
                animate_pre(views, *m, *start, *end),
                n == subs@.len(),
                0 <= j <= n,
                r@.len() == j,
                forall|t: int|
                    0 <= t < j ==> item_view(#[trigger] r@[t]) == ItemV::Shape(
                        shape_of(views[t], *m),
                    ),
            decreases n - j,
        {
            proof {
                assert(views[j as int] == subs@[j as int]@);
            }
            let sh = shape_from(&subs[j], m);
            r.push(ShapeItem::Shape(sh));
            j = j + 1;
        }
        proof {
            crate::template::lemma_items_view_len(r@);
            assert(items_view(r@) =~~= spec_animate(Animation::Still, views, *m, *start, *end));
        }
        r
    }
}

impl Pulse {
    /// One pulsing group around the whole icon.
    pub fn animate(
        &self,
        start: &Q,
        end: &Q,
        subs: &Vec<Subpath>,
        m: &CoordinateMapper,
    ) -> (r: Vec<ShapeItem>)
        requires
            animate_pre(subs@.map_values(|s: Subpath| s@), *m, *start, *end),
        ensures
            items_view(r@) == spec_animate(
                Animation::PulseWhole,
                subs@.map_values(|s: Subpath| s@),
                *m,
                *start,
                *end,
            ),
    {
        whole_icon(start, end, subs, m, false)
    }
}

impl Twirl {
    /// One twirling group around the whole icon.
    pub fn animate(
        &self,
        start: &Q,
        end: &Q,
        subs: &Vec<Subpath>,
        m: &CoordinateMapper,
    ) -> (r: Vec<ShapeItem>)
        requires
            animate_pre(subs@.map_values(|s: Subpath| s@), *m, *start, *end),
        ensures
            items_view(r@) == spec_animate(
                Animation::TwirlWhole,
                subs@.map_values(|s: Subpath| s@),
                *m,
                *start,
                *end,
            ),
    {
        whole_icon(start, end, subs, m, true)
    }
}

/// Shared body of the whole-icon animators.
fn whole_icon(
    start: &Q,
    end: &Q,
    subs: &Vec<Subpath>,
    m: &CoordinateMapper,
    twirl_kind: bool,
) -> (r: Vec<ShapeItem>)
    requires
        animate_pre(subs@.map_values(|s: Subpath| s@), *m, *start, *end),
    ensures
        items_view(r@) == spec_animate(
            if twirl_kind {
                Animation::TwirlWhole
            } else {
                Animation::PulseWhole
            },
            subs@.map_values(|s: Subpath| s@),
            *m,
            *start,
            *end,
        ),
{
    let ghost views = subs@.map_values(|s: Subpath| s@);
    let n = subs.len();
    let mut members: Vec<usize> = Vec::new();
    let mut j: usize = 0;
    while j < n
        invariant
            0 <= j <= n,
            n == subs@.len(),
            members@.len() == j,
            forall|t: int| 0 <= t < j ==> (#[trigger] members@[t]) == t,
        decreases n - j,
    {
        members.push(j);
        j = j + 1;
    }
    proof {
        assert(to_ints(members@) =~= all_members(n as int));
    }
    let g = build_group(subs, &members, m, start, end, 0, twirl_kind);
    let mut r: Vec<ShapeItem> = Vec::new();
    r.push(g);
    proof {
        crate::template::lemma_items_view_len(r@);
        let target = spec_animate(
            if twirl_kind {
                Animation::TwirlWhole
            } else {
                Animation::PulseWhole
            },
            views,
            *m,
            *start,
            *end,
        );
        assert(items_view(r@) =~~= target);
    }
    r
}

impl PulseParts {
    /// One pulsing group per icon part, staggered by part index.
    pub fn animate(
        &self,
        start: &Q,
        end: &Q,
        subs: &Vec<Subpath>,
        m: &CoordinateMapper,
    ) -> (r: Vec<ShapeItem>)
        requires
            animate_pre(subs@.map_values(|s: Subpath| s@), *m, *start, *end),
        ensures
            items_view(r@) == spec_animate(
                Animation::PulseParts,
                subs@.map_values(|s: Subpath| s@),
                *m,
                *start,
                *end,
            ),
    {
        icon_parts(start, end, subs, m, false)
    }
}

impl TwirlParts {
    /// One twirling group per icon part, staggered by part index.
    pub fn animate(
        &self,
        start: &Q,
        end: &Q,
        subs: &Vec<Subpath>,
        m: &CoordinateMapper,
    ) -> (r: Vec<ShapeItem>)
        requires
            animate_pre(subs@.map_values(|s: Subpath| s@), *m, *start, *end),
        ensures
            items_view(r@) == spec_animate(
                Animation::TwirlParts,
                subs@.map_values(|s: Subpath| s@),
                *m,
                *start,
                *end,
            ),
    {
        icon_parts(start, end, subs, m, true)
    }
}

/// Shared body of the per-part animators.
fn icon_parts(
    start: &Q,
    end: &Q,
    subs: &Vec<Subpath>,
    m: &CoordinateMapper,
    twirl_kind: bool,
) -> (r: Vec<ShapeItem>)
    requires
        animate_pre(subs@.map_values(|s: Subpath| s@), *m, *start, *end),
    ensures
        items_view(r@) == spec_animate(
            if twirl_kind {
                Animation::TwirlParts
            } else {
                Animation::PulseParts
            },
            subs@.map_values(|s: Subpath| s@),
            *m,
            *start,
            *end,
        ),
{
    let ghost views = subs@.map_values(|s: Subpath| s@);
    let ghost st = spec_groups(
        views,
        filled_flags(views),
        spec_order(SortKey::Grouping, views, filled_flags(views)),
    );
    let (groups, _orphans) = group_icon_parts(subs);
    let n = groups.len();
    let mut r: Vec<ShapeItem> = Vec::new();
    let mut g: usize = 0;
    while g < n
        invariant
            views == subs@.map_values(|s: Subpath| s@),
            animate_pre(views, *m, *start, *end),
            st == spec_groups(
                views,
                filled_flags(views),
                spec_order(SortKey::Grouping, views, filled_flags(views)),
            ),
            n == groups@.len(),
            groups@.len() == st.prims.len(),
            groups@.len() <= subs@.len(),
            forall|g2: int|
                0 <= g2 < st.prims.len() ==> to_ints(#[trigger] groups@[g2].members@) == seq![
                    st.prims[g2],
                ] + st.holes[g2],
            forall|g2: int, j: int|
                0 <= g2 < groups@.len() && 0 <= j < groups@[g2].members@.len()
                    ==> (#[trigger] groups@[g2].members@[j]) < subs@.len(),
            0 <= g <= n,
            r@.len() == g,
            forall|t: int|
                0 <= t < g ==> item_view(#[trigger] r@[t]) == if twirl_kind {
                    spec_twirl(views, seq![st.prims[t]] + st.holes[t], *m, *start, *end, t)
                } else {
                    spec_pulse(views, seq![st.prims[t]] + st.holes[t], *m, *start, *end, t)
                },
        decreases n - g,
    {
        let item = build_group(subs, &groups[g].members, m, start, end, g, twirl_kind);
        r.push(item);
        g = g + 1;
    }
    proof {
        crate::template::lemma_items_view_len(r@);
        let ghost order = spec_order(SortKey::Grouping, views, filled_flags(views));
        crate::group::lemma_state_shape(views, filled_flags(views), order, order.len() as int);
        let target = spec_animate(
            if twirl_kind {
                Animation::TwirlParts
            } else {
                Animation::PulseParts
            },
            views,
            *m,
            *start,
            *end,
        );
        assert(items_view(r@) =~~= target);
    }
    r
}

impl Animation {
    /// Dispatch to the animator of this kind; the set of kinds is fixed and
    /// finite, so the kind is a closed tagged variant.
    pub fn animate(
        &self,
        start: &Q,
        end: &Q,
        subs: &Vec<Subpath>,
        m: &CoordinateMapper,
    ) -> (r: Vec<ShapeItem>)
        requires
            animate_pre(subs@.map_values(|s: Subpath| s@), *m, *start, *end),
        ensures
            items_view(r@) == spec_animate(
                *self,
                subs@.map_values(|s: Subpath| s@),
                *m,
                *start,
                *end,
            ),
    {
        match self {
            Animation::Still => Still.animate(start, end, subs, m),
            Animation::PulseWhole => Pulse.animate(start, end, subs, m),
            Animation::PulseParts => PulseParts.animate(start, end, subs, m),
            Animation::TwirlWhole => Twirl.animate(start, end, subs, m),
            Animation::TwirlParts => TwirlParts.animate(start, end, subs, m),
        }
    }
}

} // verus!
