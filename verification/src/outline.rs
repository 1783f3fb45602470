//! Collects a stream of primitive drawing operations into closed subpaths in
//! cubic-bezier form.
//!
//! Coordinates are stored in design units scaled by 3, so that the standard
//! 1/3-2/3 elevation of a quadratic curve to a cubic is exact in integers.

use vstd::prelude::*;
use crate::geom::{
    box_in_ctrl_range, box_join_pt, pt_box, pt_in_coord_range, pt_in_offset_range,
    pts_in_coord_range, BBox, Pt, GLYPH_LIMIT,
};

verus! {

/// A primitive drawing operation, in font design units.
#[derive(Clone, Copy, PartialEq, Eq, Structural, Debug)]
pub enum DrawCmd {
    /// Start a new subpath at the point.
    MoveTo(Pt),
    /// Straight segment to the point.
    LineTo(Pt),
    /// Quadratic segment: control point, then endpoint.
    QuadTo(Pt, Pt),
    /// Cubic segment: two control points, then endpoint.
    CurveTo(Pt, Pt, Pt),
    /// Mark the active subpath closed.
    Close,
}

/// Mathematical model of one subpath: on-curve vertices plus, per vertex, an
/// outgoing and an incoming control offset, and whether the subpath is closed.
#[verifier::ext_equal]
pub ghost struct SubV {
    pub vertices: Seq<Pt>,
    pub out_off: Seq<Pt>,
    pub in_off: Seq<Pt>,
    pub closed: bool,
}

/// One continuous subpath of a glyph outline, all segments in cubic form.
///
/// `vertices[k]` is an on-curve point; the segment from vertex `k` to vertex
/// `k + 1` has absolute control points `vertices[k] + out_off[k]` and
/// `vertices[k + 1] + in_off[k + 1]`.
#[derive(Clone, Debug)]
pub struct Subpath {
    pub vertices: Vec<Pt>,
    pub out_off: Vec<Pt>,
    pub in_off: Vec<Pt>,
    pub closed: bool,
}

impl View for Subpath {
    type V = SubV;

    open spec fn view(&self) -> SubV {
        SubV {
            vertices: self.vertices@,
            out_off: self.out_off@,
            in_off: self.in_off@,
            closed: self.closed,
        }
    }
}

/// Well-formed subpath model: at least one vertex, aligned offset lists, and
/// all coordinates within the stored ranges.
pub open spec fn subv_wf(s: SubV) -> bool {
    &&& 1 <= s.vertices.len() <= 100_000_000
    &&& s.out_off.len() == s.vertices.len()
    &&& s.in_off.len() == s.vertices.len()
    &&& pts_in_coord_range(s.vertices)
    &&& forall|k: int| 0 <= k < s.out_off.len() ==> pt_in_offset_range(#[trigger] s.out_off[k])
    &&& forall|k: int| 0 <= k < s.in_off.len() ==> pt_in_offset_range(#[trigger] s.in_off[k])
}

pub open spec fn outline_wf(subs: Seq<SubV>) -> bool {
    forall|k: int| 0 <= k < subs.len() ==> subv_wf(#[trigger] subs[k])
}

/// The command coordinates all lie within the accepted input range.
pub open spec fn cmd_in_range(c: DrawCmd) -> bool {
    &&& (c matches DrawCmd::MoveTo(p) ==> pt_in_glyph_range(p))
    &&& (c matches DrawCmd::LineTo(p) ==> pt_in_glyph_range(p))
    &&& (c matches DrawCmd::QuadTo(c0, p) ==> pt_in_glyph_range(c0) && pt_in_glyph_range(p))
    &&& (c matches DrawCmd::CurveTo(c0, c1, p) ==> pt_in_glyph_range(c0) && pt_in_glyph_range(c1)
        && pt_in_glyph_range(p))
}

pub open spec fn pt_in_glyph_range(p: Pt) -> bool {
    &&& -GLYPH_LIMIT <= p.x <= GLYPH_LIMIT
    &&& -GLYPH_LIMIT <= p.y <= GLYPH_LIMIT
}

pub open spec fn cmds_in_range(cmds: Seq<DrawCmd>) -> bool {
    forall|k: int| 0 <= k < cmds.len() ==> cmd_in_range(#[trigger] cmds[k])
}

/// Shape of a pen command stream: drawing starts with a move, and a close ends
/// a contour, so only a move may follow it.
pub open spec fn wf_cmds(cmds: Seq<DrawCmd>) -> bool {
    &&& (cmds.len() > 0 ==> cmds[0] is MoveTo)
    &&& forall|k: int|
        0 <= k && k + 1 < cmds.len() && (#[trigger] cmds[k]) is Close ==> cmds[k + 1] is MoveTo
}

pub open spec fn pt_zero() -> Pt {
    Pt { x: 0, y: 0 }
}

/// The point scaled by 3: design units to stored units.
pub open spec fn scale3(p: Pt) -> Pt {
    Pt { x: (3 * p.x) as i64, y: (3 * p.y) as i64 }
}

/// Outgoing control offset produced by elevating a quadratic with control `c`
/// drawn from last on-curve point `last` (both in design units), in stored
/// units.
pub open spec fn quad_out_off(last: Pt, c: Pt) -> Pt {
    Pt { x: (2 * (c.x - last.x)) as i64, y: (2 * (c.y - last.y)) as i64 }
}

/// Incoming control offset produced by elevating a quadratic with control `c`
/// and endpoint `p` (both in design units), in stored units.
pub open spec fn quad_in_off(c: Pt, p: Pt) -> Pt {
    Pt { x: (2 * (c.x - p.x)) as i64, y: (2 * (c.y - p.y)) as i64 }
}

/// Quadratic-to-cubic conversion is the exact 1/3-2/3 elevation: with the
/// stored scale of 3, the absolute elevated controls are `P0 + 2*C` and
/// `2*C + P1`, that is, `C0 = P0/3 + 2*C/3` and `C1 = 2*C/3 + P1/3` exactly.
pub proof fn lemma_quadratic_elevation(last: Pt, c: Pt, p: Pt)
    requires
        pt_in_glyph_range(last),
        pt_in_glyph_range(c),
        pt_in_glyph_range(p),
    ensures
        scale3(last).x + quad_out_off(last, c).x == last.x + 2 * c.x,
        scale3(last).y + quad_out_off(last, c).y == last.y + 2 * c.y,
        scale3(p).x + quad_in_off(c, p).x == 2 * c.x + p.x,
        scale3(p).y + quad_in_off(c, p).y == 2 * c.y + p.y,
{
}

/// A fresh single-vertex subpath at stored point `v`.
pub open spec fn sub_single(v: Pt) -> SubV {
    SubV {
        vertices: seq![v],
        out_off: seq![pt_zero()],
        in_off: seq![pt_zero()],
        closed: false,
    }
}

/// Append to `s` a cubic segment ending at stored vertex `v`, with outgoing
/// offset `o` at the previous last vertex and incoming offset `ioff` at `v`.
pub open spec fn seg_push(s: SubV, o: Pt, ioff: Pt, v: Pt) -> SubV {
    SubV {
        vertices: s.vertices.push(v),
        out_off: s.out_off.update(s.out_off.len() - 1, o).push(pt_zero()),
        in_off: s.in_off.push(ioff),
        closed: s.closed,
    }
}

/// Collection state: the subpaths so far and the last on-curve point in
/// design units.
#[verifier::ext_equal]
pub ghost struct CollectState {
    pub subs: Seq<SubV>,
    pub last: Pt,
}

/// Effect of one drawing operation on the collection state. A segment command
/// before any move leaves the state unchanged; `wf_cmds` rules those streams
/// out.
pub open spec fn collect_step(st: CollectState, cmd: DrawCmd) -> CollectState {
    match cmd {
        DrawCmd::MoveTo(p) => CollectState { subs: st.subs.push(sub_single(scale3(p))), last: p },
        DrawCmd::LineTo(p) => {
            if st.subs.len() == 0 {
                st
            } else {
                CollectState {
                    subs: st.subs.update(
                        st.subs.len() - 1,
                        seg_push(st.subs.last(), pt_zero(), pt_zero(), scale3(p)),
                    ),
                    last: p,
                }
            }
        },
        DrawCmd::QuadTo(c, p) => {
            if st.subs.len() == 0 {
                st
            } else {
                CollectState {
                    subs: st.subs.update(
                        st.subs.len() - 1,
                        seg_push(
                            st.subs.last(),
                            quad_out_off(st.last, c),
                            quad_in_off(c, p),
                            scale3(p),
                        ),
                    ),
                    last: p,
                }
            }
        },
        DrawCmd::CurveTo(c0, c1, p) => {
            if st.subs.len() == 0 {
                st
            } else {
                CollectState {
                    subs: st.subs.update(
                        st.subs.len() - 1,
                        seg_push(
                            st.subs.last(),
                            Pt {
                                x: (3 * (c0.x - st.last.x)) as i64,
                                y: (3 * (c0.y - st.last.y)) as i64,
                            },
                            Pt { x: (3 * (c1.x - p.x)) as i64, y: (3 * (c1.y - p.y)) as i64 },
                            scale3(p),
                        ),
                    ),
                    last: p,
                }
            }
        },
        DrawCmd::Close => {
            if st.subs.len() == 0 {
                st
            } else {
                CollectState {
                    subs: st.subs.update(
                        st.subs.len() - 1,
                        SubV { closed: true, ..st.subs.last() },
                    ),
                    last: st.last,
                }
            }
        },
    }
}

pub open spec fn collect_init() -> CollectState {
    CollectState { subs: Seq::empty(), last: pt_zero() }
}

/// State after processing the whole command stream.
pub open spec fn spec_collect(cmds: Seq<DrawCmd>) -> CollectState
    decreases cmds.len(),
{
    if cmds.len() == 0 {
        collect_init()
    } else {
        collect_step(spec_collect(cmds.drop_last()), cmds.last())
    }
}

/// A subpath with no explicit close is implicitly closed when its first and
/// last vertex coincide.
pub open spec fn resolve_closed(s: SubV) -> SubV {
    SubV { closed: s.closed || s.vertices.len() > 0 && s.vertices[0] == s.vertices.last(), ..s }
}

/// The ordered subpath list produced for a command stream, close flags
/// resolved.
pub open spec fn spec_outline(cmds: Seq<DrawCmd>) -> Seq<SubV> {
    spec_collect(cmds).subs.map_values(|s: SubV| resolve_closed(s))
}

proof fn lemma_collect_push(cmds: Seq<DrawCmd>, cmd: DrawCmd)
    ensures
        spec_collect(cmds.push(cmd)) == collect_step(spec_collect(cmds), cmd),
{
    let t = cmds.push(cmd);
    assert(t.drop_last() =~= cmds);
    assert(t.last() == cmd);
}

/// Collect a well-formed command stream into its ordered list of subpaths.
///
/// Every produced subpath has at least one vertex; a `MoveTo` opens a new
/// subpath, segment commands extend the active one, and `Close` marks it
/// closed.
#[verifier::rlimit(60)]
pub fn collect_outline(cmds: &Vec<DrawCmd>) -> (subs: Vec<Subpath>)
    requires
        wf_cmds(cmds@),
        cmds_in_range(cmds@),
        cmds@.len() < 100_000_000,
    ensures
        subs@.map_values(|s: Subpath| s@) == spec_outline(cmds@),
        outline_wf(subs@.map_values(|s: Subpath| s@)),
        subs@.len() <= cmds@.len(),
{
    let n = cmds.len();
    let mut subs: Vec<Subpath> = Vec::new();
    let mut last = Pt { x: 0, y: 0 };
    let mut i: usize = 0;
    while i < n
        invariant
            n == cmds@.len(),
            0 <= i <= n,
            wf_cmds(cmds@),
            cmds_in_range(cmds@),
            cmds@.len() < 100_000_000,
            subs@.map_values(|s: Subpath| s@) =~= spec_collect(cmds@.subrange(0, i as int)).subs,
            last == spec_collect(cmds@.subrange(0, i as int)).last,
            outline_wf(subs@.map_values(|s: Subpath| s@)),
            subs@.len() <= i,
            i > 0 ==> subs@.len() >= 1,
            forall|k: int|
                0 <= k < spec_collect(cmds@.subrange(0, i as int)).subs.len() ==> (#[trigger]
                spec_collect(cmds@.subrange(0, i as int)).subs[k]).vertices.len() <= 1 + i,
        decreases n - i,
    {
        let ghost prefix = cmds@.subrange(0, i as int);
        let ghost st = spec_collect(prefix);
        proof {
            assert(cmds@.subrange(0, i as int + 1) =~= prefix.push(cmds@[i as int]));
            lemma_collect_push(prefix, cmds@[i as int]);
            if i > 0 {
                assert(prefix[0] == cmds@[0]);
            }
        }
        let cmd = cmds[i];
        match cmd {
            DrawCmd::MoveTo(p) => {
                let mut vertices: Vec<Pt> = Vec::new();
                let mut out_off: Vec<Pt> = Vec::new();
                let mut in_off: Vec<Pt> = Vec::new();
                vertices.push(Pt { x: 3 * p.x, y: 3 * p.y });
                out_off.push(Pt { x: 0, y: 0 });
                in_off.push(Pt { x: 0, y: 0 });
                let fresh = Subpath { vertices, out_off, in_off, closed: false };
                proof {
                    assert(fresh@ =~~= sub_single(scale3(p)));
                }
                subs.push(fresh);
                last = p;
                proof {
                    assert(subs@.map_values(|s: Subpath| s@) =~~= st.subs.push(
                        sub_single(scale3(p)),
                    ));
                }
            },
            DrawCmd::LineTo(p) => {
                assert(subs.len() > 0);
                extend_active(&mut subs, Pt { x: 0, y: 0 }, Pt { x: 0, y: 0 }, Pt {
                    x: 3 * p.x,
                    y: 3 * p.y,
                }, Ghost(st));
                last = p;
            },
            DrawCmd::QuadTo(c, p) => {
                assert(subs.len() > 0);
                let o = Pt { x: 2 * (c.x - last.x), y: 2 * (c.y - last.y) };
                let io = Pt { x: 2 * (c.x - p.x), y: 2 * (c.y - p.y) };
                extend_active(&mut subs, o, io, Pt { x: 3 * p.x, y: 3 * p.y }, Ghost(st));
                last = p;
            },
            DrawCmd::CurveTo(c0, c1, p) => {
                assert(subs.len() > 0);
                let o = Pt { x: 3 * (c0.x - last.x), y: 3 * (c0.y - last.y) };
                let io = Pt { x: 3 * (c1.x - p.x), y: 3 * (c1.y - p.y) };
                extend_active(&mut subs, o, io, Pt { x: 3 * p.x, y: 3 * p.y }, Ghost(st));
                last = p;
            },
            DrawCmd::Close => {
                assert(subs.len() > 0);
                let mut s = subs.pop().unwrap();
                s.closed = true;
                subs.push(s);
                proof {
                    assert(subs@.map_values(|s2: Subpath| s2@) =~~= st.subs.update(
                        st.subs.len() - 1,
                        SubV { closed: true, ..st.subs.last() },
                    ));
                }
            },
        }
        proof {
            let st2 = spec_collect(cmds@.subrange(0, i as int + 1));
            assert(st2 == collect_step(st, cmds@[i as int]));
            assert forall|k: int|
                0 <= k < st2.subs.len() implies (#[trigger] st2.subs[k]).vertices.len() <= 1 + (i
                + 1) by {
                if cmds@[i as int] is MoveTo {
                    if k < st.subs.len() {
                        assert(st2.subs[k] == st.subs[k]);
                    } else {
                        assert(st2.subs[k].vertices.len() == 1);
                    }
                } else {
                    if st.subs.len() > 0 && k < st.subs.len() - 1 {
                        assert(st2.subs[k] == st.subs[k]);
                    }
                }
            }
        }
        i = i + 1;
    }
    proof {
        assert(cmds@.subrange(0, n as int) =~= cmds@);
    }
    let subs = finalize_closed(subs);
    subs
}

/// Append a segment to the last subpath of `subs`; exec counterpart of
/// `seg_push` applied through `collect_step`.
fn extend_active(
    subs: &mut Vec<Subpath>,
    o: Pt,
    ioff: Pt,
    v: Pt,
    Ghost(st): Ghost<CollectState>,
)
    requires
        old(subs)@.len() > 0,
        old(subs)@.map_values(|s: Subpath| s@) == st.subs,
        outline_wf(st.subs),
        pt_in_offset_range(o),
        pt_in_offset_range(ioff),
        pt_in_coord_range(v),
        st.subs.last().vertices.len() < 100_000_000,
    ensures
        final(subs)@.map_values(|s: Subpath| s@) == st.subs.update(
            st.subs.len() - 1,
            seg_push(st.subs.last(), o, ioff, v),
        ),
        outline_wf(final(subs)@.map_values(|s: Subpath| s@)),
        final(subs)@.len() == old(subs)@.len(),
{
    let mut s = subs.pop().unwrap();
    let w = s.out_off.len() - 1;
    s.vertices.push(v);
    s.out_off.set(w, o);
    s.out_off.push(Pt { x: 0, y: 0 });
    s.in_off.push(ioff);
    proof {
        assert(s@ =~~= seg_push(st.subs.last(), o, ioff, v));
    }
    subs.push(s);
    proof {
        let viewed = subs@.map_values(|s2: Subpath| s2@);
        let target = st.subs.update(st.subs.len() - 1, seg_push(st.subs.last(), o, ioff, v));
        assert(viewed =~~= target);
        assert forall|k: int| 0 <= k < viewed.len() implies subv_wf(#[trigger] viewed[k]) by {
            if k < viewed.len() - 1 {
                assert(viewed[k] == st.subs[k]);
            }
        }
    }
}

/// Resolve implicit closes: exec counterpart of mapping `resolve_closed`.
fn finalize_closed(subs: Vec<Subpath>) -> (r: Vec<Subpath>)
    requires
        outline_wf(subs@.map_values(|s: Subpath| s@)),
    ensures
        r@.map_values(|s: Subpath| s@) =~= subs@.map_values(|s: Subpath| s@).map_values(
            |s: SubV| resolve_closed(s),
        ),
        outline_wf(r@.map_values(|s: Subpath| s@)),
        r@.len() == subs@.len(),
{
    let ghost orig = subs@.map_values(|s: Subpath| s@);
    let n = subs.len();
    let mut subs = subs;
    let mut i: usize = 0;
    while i < n
        invariant
            n == subs@.len(),
            0 <= i <= n,
            orig.len() == n,
            outline_wf(orig),
            forall|k: int| i <= k < n ==> (#[trigger] subs@[k])@ == orig[k],
            forall|k: int| 0 <= k < i ==> (#[trigger] subs@[k])@ == resolve_closed(orig[k]),
        decreases n - i,
    {
        let closed = {
            let sv = &subs[i];
            if sv.closed {
                true
            } else {
                let a = sv.vertices[0];
                let b = sv.vertices[sv.vertices.len() - 1];
                a.x == b.x && a.y == b.y
            }
        };
        let mut s = subs.remove(i);
        s.closed = closed;
        subs.insert(i, s);
        proof {
            assert(subs@[i as int]@ =~~= resolve_closed(orig[i as int]));
        }
        i = i + 1;
    }
    proof {
        let viewed = subs@.map_values(|s: Subpath| s@);
        let target = orig.map_values(|s: SubV| resolve_closed(s));
        assert(viewed =~= target);
    }
    subs
}


/// The `j`-th control point of the subpath: vertex `j / 3`, then its absolute
/// outgoing and incoming control points, in that order.
pub open spec fn cpt(s: SubV, j: int) -> Pt {
    let k = j / 3;
    let v = s.vertices[k];
    if j % 3 == 0 {
        v
    } else if j % 3 == 1 {
        Pt { x: (v.x + s.out_off[k].x) as i64, y: (v.y + s.out_off[k].y) as i64 }
    } else {
        Pt { x: (v.x + s.in_off[k].x) as i64, y: (v.y + s.in_off[k].y) as i64 }
    }
}

/// Box around the first `m` control points (at least the first).
pub open spec fn cbox_upto(s: SubV, m: int) -> BBox
    decreases m,
{
    if m <= 1 {
        pt_box(cpt(s, 0))
    } else {
        box_join_pt(cbox_upto(s, m - 1), cpt(s, m - 1))
    }
}

/// The control box of the subpath: the bounding box of its on-curve and
/// control points.
pub open spec fn cbox(s: SubV) -> BBox {
    cbox_upto(s, 3 * s.vertices.len() as int)
}

/// Compute the control box of a subpath.
pub fn control_box(s: &Subpath) -> (b: BBox)
    requires
        subv_wf(s@),
    ensures
        b == cbox(s@),
        box_in_ctrl_range(b),
        b.x0 <= b.x1,
        b.y0 <= b.y1,
{
    let n = s.vertices.len();
    let v0 = s.vertices[0];
    let mut b = BBox { x0: v0.x, y0: v0.y, x1: v0.x, y1: v0.y };
    let mut j: usize = 1;
    let end = 3 * n;
    while j < end
        invariant
            subv_wf(s@),
            n == s@.vertices.len(),
            end == 3 * n,
            1 <= j <= end,
            b == cbox_upto(s@, j as int),
            box_in_ctrl_range(b),
            b.x0 <= b.x1,
            b.y0 <= b.y1,
        decreases end - j,
    {
        let k = j / 3;
        let r = j % 3;
        assert(k < n);
        let v = s.vertices[k];
        let p = if r == 0 {
            v
        } else if r == 1 {
            let o = s.out_off[k];
            Pt { x: v.x + o.x, y: v.y + o.y }
        } else {
            let o = s.in_off[k];
            Pt { x: v.x + o.x, y: v.y + o.y }
        };
        assert(p == cpt(s@, j as int));
        b = BBox {
            x0: if p.x < b.x0 { p.x } else { b.x0 },
            y0: if p.y < b.y0 { p.y } else { b.y0 },
            x1: if p.x > b.x1 { p.x } else { b.x1 },
            y1: if p.y > b.y1 { p.y } else { b.y1 },
        };
        j = j + 1;
    }
    b
}

} // verus!
