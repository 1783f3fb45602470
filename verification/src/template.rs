//! The animation document model: a tree of layers containing groups, shapes,
//! rectangles, fills and transforms, where a numeric property is either fixed
//! or an animated list of keyframes. The template splicer walks this tree and
//! replaces placeholder groups with generated glyph content.

use vstd::prelude::*;
use crate::animate::{spec_animate, Animation};
use crate::group::{spec_order, to_ints, SortKey};
use crate::mapper::{
    design_box_in_range, design_box_valid, q_small, qbox_small, qbox_valid, CoordinateMapper,
    DesignBox, Q, QBox,
};
use crate::outline::{
    cmds_in_range, collect_outline, outline_wf, spec_outline, wf_cmds, DrawCmd, SubV, Subpath,
};

verus! {

broadcast use vstd::std_specs::vec::group_vec_axioms;

/// A pair of coordinate numerators (the denominators live on the shape).
#[derive(Clone, Copy, PartialEq, Eq, Structural, Debug)]
pub struct Pt128 {
    pub x: i128,
    pub y: i128,
}

/// A rational point.
#[derive(Clone, Copy, PartialEq, Eq, Structural, Debug)]
pub struct QPt {
    pub x: Q,
    pub y: Q,
}

/// A normalized bezier easing handle, in thousandths.
#[derive(Clone, Copy, PartialEq, Eq, Structural, Debug)]
pub struct EasePt {
    pub x: i64,
    pub y: i64,
}

/// Bezier easing of a keyframe: the handle incoming to the destination and
/// the handle outgoing from the origin.
#[derive(Clone, Copy, PartialEq, Eq, Structural, Debug)]
pub struct BezierEase {
    pub in_val: EasePt,
    pub out_val: EasePt,
}

/// One keyframe of an animated property: start time, start value vector, and
/// easing handles.
#[derive(Clone, Debug)]
pub struct Keyframe {
    pub time: Q,
    pub value: Vec<i64>,
    pub ease: BezierEase,
}

/// A property that is either a fixed value vector or an animated keyframe
/// list.
#[derive(Clone, Debug)]
pub enum Track {
    Fixed(Vec<Q>),
    Animated(Vec<Keyframe>),
}

/// A transform node: anchor point, position, scale and rotation tracks.
#[derive(Clone, Debug)]
pub struct TransformShape {
    pub anchor: QPt,
    pub position: QPt,
    pub scale: Track,
    pub rotation: Track,
}

/// A subpath shape in the document: absolute vertex numerators with one
/// denominator per axis, relative control offsets, a closed flag, and the
/// winding direction marker (1 clockwise, 3 counter-clockwise).
#[derive(Clone, Debug)]
pub struct SubPathShape {
    pub vertices: Vec<Pt128>,
    pub out_off: Vec<Pt128>,
    pub in_off: Vec<Pt128>,
    pub den_x: i128,
    pub den_y: i128,
    pub closed: bool,
    pub direction: u8,
}

/// A rectangle: position and size.
#[derive(Clone, Copy, PartialEq, Eq, Structural, Debug)]
pub struct RectShape {
    pub pos: QPt,
    pub size: QPt,
}

/// A fill: opacity in percent.
#[derive(Clone, Copy, PartialEq, Eq, Structural, Debug)]
pub struct FillShape {
    pub opacity: Q,
}

/// A group node; `placeholder` marks it as a named substitution target.
pub struct GroupNode {
    pub placeholder: bool,
    pub items: Vec<ShapeItem>,
}

/// One entry of a group's or layer's shape list.
pub enum ShapeItem {
    Group(GroupNode),
    Shape(SubPathShape),
    Rect(RectShape),
    Fill(FillShape),
    Transform(TransformShape),
}

/// A shape layer: its time window and its shape list.
pub struct ShapeLayer {
    pub in_point: Q,
    pub out_point: Q,
    pub shapes: Vec<ShapeItem>,
}

/// The whole document: global time window, frame rate, pixel size, layers.
pub struct Document {
    pub in_point: Q,
    pub out_point: Q,
    pub frame_rate: Q,
    pub width: i64,
    pub height: i64,
    pub layers: Vec<ShapeLayer>,
}

// ---------------------------------------------------------------------------
// Ghost views of the tree
// ---------------------------------------------------------------------------

#[verifier::ext_equal]
pub ghost struct KeyframeV {
    pub time: Q,
    pub value: Seq<i64>,
    pub ease: BezierEase,
}

#[verifier::ext_equal]
pub ghost enum TrackV {
    Fixed(Seq<Q>),
    Animated(Seq<KeyframeV>),
}

#[verifier::ext_equal]
pub ghost struct TransformV {
    pub anchor: QPt,
    pub position: QPt,
    pub scale: TrackV,
    pub rotation: TrackV,
}

#[verifier::ext_equal]
pub ghost struct ShapeV {
    pub vertices: Seq<Pt128>,
    pub out_off: Seq<Pt128>,
    pub in_off: Seq<Pt128>,
    pub den_x: i128,
    pub den_y: i128,
    pub closed: bool,
    pub direction: u8,
}

#[verifier::ext_equal]
pub ghost struct GroupV {
    pub placeholder: bool,
    pub items: Seq<ItemV>,
}

#[verifier::ext_equal]
pub ghost enum ItemV {
    Group(GroupV),
    Shape(ShapeV),
    Rect(RectShape),
    Fill(FillShape),
    Transform(TransformV),
}

#[verifier::ext_equal]
pub ghost struct LayerV {
    pub in_point: Q,
    pub out_point: Q,
    pub shapes: Seq<ItemV>,
}

#[verifier::ext_equal]
pub ghost struct DocV {
    pub in_point: Q,
    pub out_point: Q,
    pub frame_rate: Q,
    pub width: i64,
    pub height: i64,
    pub layers: Seq<LayerV>,
}

impl View for Keyframe {
    type V = KeyframeV;

    open spec fn view(&self) -> KeyframeV {
        KeyframeV { time: self.time, value: self.value@, ease: self.ease }
    }
}

impl View for Track {
    type V = TrackV;

    open spec fn view(&self) -> TrackV {
        match self {
            Track::Fixed(v) => TrackV::Fixed(v@),
            Track::Animated(kfs) => TrackV::Animated(kfs@.map_values(|k: Keyframe| k@)),
        }
    }
}

impl View for TransformShape {
    type V = TransformV;

    open spec fn view(&self) -> TransformV {
        TransformV {
            anchor: self.anchor,
            position: self.position,
            scale: self.scale@,
            rotation: self.rotation@,
        }
    }
}

impl View for SubPathShape {
    type V = ShapeV;

    open spec fn view(&self) -> ShapeV {
        ShapeV {
            vertices: self.vertices@,
            out_off: self.out_off@,
            in_off: self.in_off@,
            den_x: self.den_x,
            den_y: self.den_y,
            closed: self.closed,
            direction: self.direction,
        }
    }
}

/// View of one tree item.
pub open spec fn item_view(it: ShapeItem) -> ItemV
    decreases it,
{
    match it {
        ShapeItem::Group(g) => ItemV::Group(
            GroupV { placeholder: g.placeholder, items: items_view(g.items@) },
        ),
        ShapeItem::Shape(s) => ItemV::Shape(s@),
        ShapeItem::Rect(r) => ItemV::Rect(r),
        ShapeItem::Fill(f) => ItemV::Fill(f),
        ShapeItem::Transform(t) => ItemV::Transform(t@),
    }
}

/// View of a list of tree items.
pub open spec fn items_view(items: Seq<ShapeItem>) -> Seq<ItemV>
    decreases items,
{
    if items.len() == 0 {
        Seq::empty()
    } else {
        items_view(items.drop_last()).push(item_view(items.last()))
    }
}

impl View for ShapeLayer {
    type V = LayerV;

    open spec fn view(&self) -> LayerV {
        LayerV {
            in_point: self.in_point,
            out_point: self.out_point,
            shapes: items_view(self.shapes@),
        }
    }
}

impl View for Document {
    type V = DocV;

    open spec fn view(&self) -> DocV {
        DocV {
            in_point: self.in_point,
            out_point: self.out_point,
            frame_rate: self.frame_rate,
            width: self.width,
            height: self.height,
            layers: self.layers@.map_values(|l: ShapeLayer| l@),
        }
    }
}

/// `items_view` maps indexwise.
pub proof fn lemma_items_view_len(items: Seq<ShapeItem>)
    ensures
        items_view(items).len() == items.len(),
        forall|k: int|
            0 <= k < items.len() ==> #[trigger] items_view(items)[k] == item_view(items[k]),
    decreases items,
{
    if items.len() > 0 {
        lemma_items_view_len(items.drop_last());
        assert forall|k: int|
            0 <= k < items.len() implies #[trigger] items_view(items)[k] == item_view(
            items[k],
        ) by {
            if k < items.len() - 1 {
                assert(items.drop_last()[k] == items[k]);
            }
        }
    }
}


/// Height of a tree item: nesting depth of groups.
pub open spec fn item_height(it: ItemV) -> nat
    decreases it,
{
    match it {
        ItemV::Group(g) => 1 + items_height(g.items),
        _ => 0,
    }
}

/// Largest height among the items.
pub open spec fn items_height(items: Seq<ItemV>) -> nat
    decreases items,
{
    if items.len() == 0 {
        0
    } else {
        let a = items_height(items.drop_last());
        let b = item_height(items.last());
        if a > b {
            a
        } else {
            b
        }
    }
}

/// Every element's height is bounded by the list's height.
pub proof fn lemma_items_height_le(items: Seq<ItemV>, k: int)
    requires
        0 <= k < items.len(),
    ensures
        item_height(items[k]) <= items_height(items),
    decreases items,
{
    if k < items.len() - 1 {
        lemma_items_height_le(items.drop_last(), k);
        assert(items.drop_last()[k] == items[k]);
    }
}

// ---------------------------------------------------------------------------
// Well-formedness caps and box extraction
// ---------------------------------------------------------------------------

/// An axis-aligned box of numerators.
#[derive(Clone, Copy, PartialEq, Eq, Structural, Debug)]
pub struct Box128 {
    pub x0: i128,
    pub y0: i128,
    pub x1: i128,
    pub y1: i128,
}

/// Caps accepted for a document shape: positive bounded denominators,
/// bounded numerators, aligned lists.
pub open spec fn shape_small(sh: ShapeV) -> bool {
    &&& 0 < sh.den_x <= 1_000_000
    &&& 0 < sh.den_y <= 1_000_000
    &&& sh.out_off.len() == sh.vertices.len()
    &&& sh.in_off.len() == sh.vertices.len()
    &&& sh.vertices.len() <= 100_000_000
    &&& forall|k: int|
        0 <= k < sh.vertices.len() ==> -500_000_000_000 <= (#[trigger] sh.vertices[k]).x
            <= 500_000_000_000 && -500_000_000_000 <= sh.vertices[k].y <= 500_000_000_000
    &&& forall|k: int|
        0 <= k < sh.out_off.len() ==> -500_000_000_000 <= (#[trigger] sh.out_off[k]).x
            <= 500_000_000_000 && -500_000_000_000 <= sh.out_off[k].y <= 500_000_000_000
    &&& forall|k: int|
        0 <= k < sh.in_off.len() ==> -500_000_000_000 <= (#[trigger] sh.in_off[k]).x
            <= 500_000_000_000 && -500_000_000_000 <= sh.in_off[k].y <= 500_000_000_000
}

/// Caps accepted for a rectangle the splicer may read as a destination box.
/// Position and size share a denominator per axis, so the far corner
/// `position + size` is an exact rational over the same denominator.
pub open spec fn rect_small(r: RectShape) -> bool {
    &&& q_small(r.pos.x)
    &&& q_small(r.pos.y)
    &&& q_small(r.size.x)
    &&& q_small(r.size.y)
    &&& r.pos.x.den == r.size.x.den
    &&& r.pos.y.den == r.size.y.den
}

/// The far corner of a rectangle: its position plus its size, exact over the
/// shared denominator.
pub open spec fn rect_far(pos: Q, size: Q) -> Q {
    Q { num: (pos.num + size.num) as i128, den: pos.den }
}

/// Caps on everything the splicer may read as a destination box.
pub open spec fn itemv_wf(it: ItemV) -> bool
    decreases it,
{
    match it {
        ItemV::Group(g) => itemsv_wf(g.items),
        ItemV::Rect(r) => rect_small(r),
        ItemV::Shape(sh) => shape_small(sh),
        _ => true,
    }
}

pub open spec fn itemsv_wf(items: Seq<ItemV>) -> bool
    decreases items,
{
    if items.len() == 0 {
        true
    } else {
        itemsv_wf(items.drop_last()) && itemv_wf(items.last())
    }
}

/// A layer the splicer accepts: a bounded, forward time window and capped
/// items.
pub open spec fn layerv_wf(l: LayerV) -> bool {
    &&& q_small(l.in_point)
    &&& q_small(l.out_point)
    &&& crate::mapper::q_lt(l.in_point, l.out_point)
    &&& itemsv_wf(l.shapes)
}

/// A document the splicer accepts.
pub open spec fn docv_wf(d: DocV) -> bool {
    forall|k: int| 0 <= k < d.layers.len() ==> layerv_wf(#[trigger] d.layers[k])
}

/// Elementwise consequence of `itemsv_wf`.
pub proof fn lemma_itemsv_wf_index(items: Seq<ItemV>, k: int)
    requires
        itemsv_wf(items),
        0 <= k < items.len(),
    ensures
        itemv_wf(items[k]),
    decreases items,
{
    if k < items.len() - 1 {
        lemma_itemsv_wf_index(items.drop_last(), k);
    }
}

/// The `j`-th control point of a document shape, in numerator space.
pub open spec fn shape_cpt(sh: ShapeV, j: int) -> Pt128 {
    let k = j / 3;
    let v = sh.vertices[k];
    if j % 3 == 0 {
        v
    } else if j % 3 == 1 {
        Pt128 { x: (v.x + sh.out_off[k].x) as i128, y: (v.y + sh.out_off[k].y) as i128 }
    } else {
        Pt128 { x: (v.x + sh.in_off[k].x) as i128, y: (v.y + sh.in_off[k].y) as i128 }
    }
}

/// Box around the first `m` control points of a document shape.
pub open spec fn shape_cbox_upto(sh: ShapeV, m: int) -> Box128
    decreases m,
{
    if m <= 1 {
        let p = shape_cpt(sh, 0);
        Box128 { x0: p.x, y0: p.y, x1: p.x, y1: p.y }
    } else {
        let b = shape_cbox_upto(sh, m - 1);
        let p = shape_cpt(sh, m - 1);
        Box128 {
            x0: if p.x < b.x0 { p.x } else { b.x0 },
            y0: if p.y < b.y0 { p.y } else { b.y0 },
            x1: if p.x > b.x1 { p.x } else { b.x1 },
            y1: if p.y > b.y1 { p.y } else { b.y1 },
        }
    }
}

/// The control box of a document shape as a rational box; a shape with no
/// vertices yields the degenerate zero box (whose replacement then fails as
/// an invalid box).
pub open spec fn shape_qbox(sh: ShapeV) -> QBox {
    if sh.vertices.len() == 0 {
        QBox {
            x0: Q { num: 0, den: 1 },
            y0: Q { num: 0, den: 1 },
            x1: Q { num: 0, den: 1 },
            y1: Q { num: 0, den: 1 },
        }
    } else {
        let b = shape_cbox_upto(sh, 3 * sh.vertices.len() as int);
        QBox {
            x0: Q { num: b.x0, den: sh.den_x },
            y0: Q { num: b.y0, den: sh.den_y },
            x1: Q { num: b.x1, den: sh.den_x },
            y1: Q { num: b.y1, den: sh.den_y },
        }
    }
}

/// The destination box an item offers: a rectangle's position-plus-size box,
/// or a shape's control box.
pub open spec fn spec_item_box(it: ItemV) -> Option<QBox> {
    match it {
        ItemV::Rect(r) => Some(
            QBox {
                x0: r.pos.x,
                y0: r.pos.y,
                x1: rect_far(r.pos.x, r.size.x),
                y1: rect_far(r.pos.y, r.size.y),
            },
        ),
        ItemV::Shape(sh) => Some(shape_qbox(sh)),
        _ => None,
    }
}

/// Compute the control box of a document shape.
fn shape_box_exec(sh: &SubPathShape) -> (r: QBox)
    requires
        shape_small(sh@),
    ensures
        r == shape_qbox(sh@),
{
    let n = sh.vertices.len();
    if n == 0 {
        return QBox {
            x0: Q { num: 0, den: 1 },
            y0: Q { num: 0, den: 1 },
            x1: Q { num: 0, den: 1 },
            y1: Q { num: 0, den: 1 },
        };
    }
    let v0 = sh.vertices[0];
    let mut b = Box128 { x0: v0.x, y0: v0.y, x1: v0.x, y1: v0.y };
    let mut j: usize = 1;
    let end = 3 * n;
    while j < end
        invariant
            shape_small(sh@),
            n == sh@.vertices.len(),
            1 <= n,
            end == 3 * n,
            1 <= j <= end,
            b == shape_cbox_upto(sh@, j as int),
            -1_000_000_000_000 <= b.x0 <= 1_000_000_000_000,
            -1_000_000_000_000 <= b.y0 <= 1_000_000_000_000,
            -1_000_000_000_000 <= b.x1 <= 1_000_000_000_000,
            -1_000_000_000_000 <= b.y1 <= 1_000_000_000_000,
        decreases end - j,
    {
        let k = j / 3;
        let r = j % 3;
        assert(k < n);
        let v = sh.vertices[k];
        let p = if r == 0 {
            v
        } else if r == 1 {
            let o = sh.out_off[k];
            Pt128 { x: v.x + o.x, y: v.y + o.y }
        } else {
            let o = sh.in_off[k];
            Pt128 { x: v.x + o.x, y: v.y + o.y }
        };
        assert(p == shape_cpt(sh@, j as int));
        b = Box128 {
            x0: if p.x < b.x0 { p.x } else { b.x0 },
            y0: if p.y < b.y0 { p.y } else { b.y0 },
            x1: if p.x > b.x1 { p.x } else { b.x1 },
            y1: if p.y > b.y1 { p.y } else { b.y1 },
        };
        j = j + 1;
    }
    QBox {
        x0: Q { num: b.x0, den: sh.den_x },
        y0: Q { num: b.y0, den: sh.den_y },
        x1: Q { num: b.x1, den: sh.den_x },
        y1: Q { num: b.y1, den: sh.den_y },
    }
}

/// The destination box an item offers, if any.
fn item_box(it: &ShapeItem) -> (r: Option<QBox>)
    requires
        itemv_wf(item_view(*it)),
    ensures
        r == spec_item_box(item_view(*it)),
{
    match it {
        ShapeItem::Rect(rc) => {
            proof {
                assert(item_view(*it) == ItemV::Rect(*rc));
            }
            Some(
                QBox {
                    x0: rc.pos.x,
                    y0: rc.pos.y,
                    x1: Q { num: rc.pos.x.num + rc.size.x.num, den: rc.pos.x.den },
                    y1: Q { num: rc.pos.y.num + rc.size.y.num, den: rc.pos.y.den },
                },
            )
        },
        ShapeItem::Shape(sh) => Some(shape_box_exec(sh)),
        _ => None,
    }
}

// ---------------------------------------------------------------------------
// Deep duplication (the rebuilt tree keeps untouched items unchanged)
// ---------------------------------------------------------------------------

fn dup_pt128_vec(v: &Vec<Pt128>) -> (r: Vec<Pt128>)
    ensures
        r@ == v@,
{
    let n = v.len();
    let mut r: Vec<Pt128> = Vec::new();
    let mut i: usize = 0;
    while i < n
        invariant
            n == v@.len(),
            0 <= i <= n,
            r@ =~= v@.subrange(0, i as int),
        decreases n - i,
    {
        r.push(v[i]);
        i = i + 1;
    }
    proof {
        assert(r@ =~= v@);
    }
    r
}

fn dup_q_vec(v: &Vec<Q>) -> (r: Vec<Q>)
    ensures
        r@ == v@,
{
    let n = v.len();
    let mut r: Vec<Q> = Vec::new();
    let mut i: usize = 0;
    while i < n
        invariant
            n == v@.len(),
            0 <= i <= n,
            r@ =~= v@.subrange(0, i as int),
        decreases n - i,
    {
        r.push(v[i]);
        i = i + 1;
    }
    proof {
        assert(r@ =~= v@);
    }
    r
}

fn dup_i64_vec(v: &Vec<i64>) -> (r: Vec<i64>)
    ensures
        r@ == v@,
{
    let n = v.len();
    let mut r: Vec<i64> = Vec::new();
    let mut i: usize = 0;
    while i < n
        invariant
            n == v@.len(),
            0 <= i <= n,
            r@ =~= v@.subrange(0, i as int),
        decreases n - i,
    {
        r.push(v[i]);
        i = i + 1;
    }
    proof {
        assert(r@ =~= v@);
    }
    r
}

fn dup_shape(s: &SubPathShape) -> (r: SubPathShape)
    ensures
        r@ == s@,
{
    SubPathShape {
        vertices: dup_pt128_vec(&s.vertices),
        out_off: dup_pt128_vec(&s.out_off),
        in_off: dup_pt128_vec(&s.in_off),
        den_x: s.den_x,
        den_y: s.den_y,
        closed: s.closed,
        direction: s.direction,
    }
}

fn dup_track(t: &Track) -> (r: Track)
    ensures
        r@ == t@,
{
    match t {
        Track::Fixed(v) => Track::Fixed(dup_q_vec(v)),
        Track::Animated(kfs) => {
            let n = kfs.len();
            let mut r: Vec<Keyframe> = Vec::new();
            let mut i: usize = 0;
            while i < n
                invariant
                    n == kfs@.len(),
                    0 <= i <= n,
                    r@.len() == i,
                    forall|k: int| 0 <= k < i ==> (#[trigger] r@[k])@ == kfs@[k]@,
                decreases n - i,
            {
                let kf = &kfs[i];
                r.push(Keyframe { time: kf.time, value: dup_i64_vec(&kf.value), ease: kf.ease });
                i = i + 1;
            }
            let out = Track::Animated(r);
            proof {
                assert(out@ =~~= t@);
            }
            out
        },
    }
}

fn dup_transform(t: &TransformShape) -> (r: TransformShape)
    ensures
        r@ == t@,
{
    TransformShape {
        anchor: t.anchor,
        position: t.position,
        scale: dup_track(&t.scale),
        rotation: dup_track(&t.rotation),
    }
}

/// Duplicate a tree item; the copy has the same view.
fn dup_item(it: &ShapeItem) -> (r: ShapeItem)
    ensures
        item_view(r) == item_view(*it),
    decreases item_height(item_view(*it)),
{
    match it {
        ShapeItem::Group(g) => {
            let n = g.items.len();
            let mut items: Vec<ShapeItem> = Vec::new();
            let mut i: usize = 0;
            while i < n
                invariant
                    *it == ShapeItem::Group(*g),
                    n == g.items@.len(),
                    0 <= i <= n,
                    items@.len() == i,
                    forall|k: int|
                        0 <= k < i ==> item_view(#[trigger] items@[k]) == item_view(g.items@[k]),
                decreases n - i,
            {
                proof {
                    lemma_items_view_len(g.items@);
                    lemma_items_height_le(items_view(g.items@), i as int);
                    assert(item_view(*it) == ItemV::Group(
                        GroupV { placeholder: g.placeholder, items: items_view(g.items@) },
                    ));
                }
                let d = dup_item(&g.items[i]);
                items.push(d);
                i = i + 1;
            }
            let out = ShapeItem::Group(GroupNode { placeholder: g.placeholder, items });
            proof {
                match &out {
                    ShapeItem::Group(g2) => {
                        lemma_items_view_len(g2.items@);
                        lemma_items_view_len(g.items@);
                        assert(items_view(g2.items@) =~= items_view(g.items@));
                    },
                    _ => {},
                }
            }
            out
        },
        ShapeItem::Shape(s) => ShapeItem::Shape(dup_shape(s)),
        ShapeItem::Rect(rc) => ShapeItem::Rect(*rc),
        ShapeItem::Fill(f) => ShapeItem::Fill(*f),
        ShapeItem::Transform(t) => ShapeItem::Transform(dup_transform(t)),
    }
}


// ---------------------------------------------------------------------------
// The template splicer
// ---------------------------------------------------------------------------

/// The mapper the splicer builds for one destination box.
pub open spec fn mapper_of(src: DesignBox, dst: QBox) -> CoordinateMapper {
    CoordinateMapper {
        fx0: (3 * src.x0) as i64,
        fy1: (3 * src.y1) as i64,
        sw: (3 * src.x1 - 3 * src.x0) as i64,
        sh: (3 * src.y1 - 3 * src.y0) as i64,
        lx0: dst.x0,
        ly0: dst.y0,
        dnx: (dst.x1.num * dst.x0.den - dst.x0.num * dst.x1.den) as i128,
        ddx: (dst.x1.den * dst.x0.den) as i128,
        dny: (dst.y1.num * dst.y0.den - dst.y0.num * dst.y1.den) as i128,
        ddy: (dst.y1.den * dst.y0.den) as i128,
    }
}

/// The generated items that replace one placeholder box.
pub open spec fn spec_replacement(
    ss: Seq<SubV>,
    src: DesignBox,
    anim: Animation,
    start: Q,
    end: Q,
    dst: QBox,
) -> Seq<ItemV> {
    spec_animate(anim, ss, mapper_of(src, dst), start, end)
}

/// Splice the items of one placeholder group: every item that offers a
/// destination box is replaced by the generated content for that box; other
/// items stay. An invalid box is an immediate error.
pub open spec fn spec_splice_ph(
    items: Seq<ItemV>,
    ss: Seq<SubV>,
    src: DesignBox,
    anim: Animation,
    start: Q,
    end: Q,
) -> Result<(Seq<ItemV>, bool), crate::Error>
    decreases items,
{
    if items.len() == 0 {
        Ok((Seq::empty(), false))
    } else {
        match spec_splice_ph(items.drop_last(), ss, src, anim, start, end) {
            Err(e) => Err(e),
            Ok((out, any)) => match spec_item_box(items.last()) {
                Option::None => Ok((out.push(items.last()), any)),
                Option::Some(b) => {
                    if design_box_valid(src) && qbox_valid(b) {
                        Ok((out + spec_replacement(ss, src, anim, start, end, b), true))
                    } else {
                        Err(crate::Error::InvalidBox)
                    }
                },
            },
        }
    }
}

/// Splice a shape list: placeholder groups get their boxes replaced, other
/// groups are descended into, everything else stays.
pub open spec fn spec_splice_items(
    items: Seq<ItemV>,
    ss: Seq<SubV>,
    src: DesignBox,
    anim: Animation,
    start: Q,
    end: Q,
) -> Result<(Seq<ItemV>, bool), crate::Error>
    decreases items,
{
    if items.len() == 0 {
        Ok((Seq::empty(), false))
    } else {
        match spec_splice_items(items.drop_last(), ss, src, anim, start, end) {
            Err(e) => Err(e),
            Ok((out, any)) => match items.last() {
                ItemV::Group(g) => {
                    if g.placeholder {
                        match spec_splice_ph(g.items, ss, src, anim, start, end) {
                            Err(e) => Err(e),
                            Ok((gi, any2)) => Ok(
                                (
                                    out.push(
                                        ItemV::Group(
                                            GroupV { placeholder: g.placeholder, items: gi },
                                        ),
                                    ),
                                    any || any2,
                                ),
                            ),
                        }
                    } else {
                        match spec_splice_items(g.items, ss, src, anim, start, end) {
                            Err(e) => Err(e),
                            Ok((gi, any2)) => Ok(
                                (
                                    out.push(
                                        ItemV::Group(
                                            GroupV { placeholder: g.placeholder, items: gi },
                                        ),
                                    ),
                                    any || any2,
                                ),
                            ),
                        }
                    }
                },
                it => Ok((out.push(it), any)),
            },
        }
    }
}

/// Splice one layer with its own time window.
pub open spec fn spec_splice_layer(
    l: LayerV,
    ss: Seq<SubV>,
    src: DesignBox,
    anim: Animation,
) -> Result<(LayerV, bool), crate::Error> {
    match spec_splice_items(l.shapes, ss, src, anim, l.in_point, l.out_point) {
        Err(e) => Err(e),
        Ok((sh, any)) => Ok(
            (LayerV { in_point: l.in_point, out_point: l.out_point, shapes: sh }, any),
        ),
    }
}

pub open spec fn spec_splice_layers(
    ls: Seq<LayerV>,
    ss: Seq<SubV>,
    src: DesignBox,
    anim: Animation,
) -> Result<(Seq<LayerV>, bool), crate::Error>
    decreases ls.len(),
{
    if ls.len() == 0 {
        Ok((Seq::empty(), false))
    } else {
        match spec_splice_layers(ls.drop_last(), ss, src, anim) {
            Err(e) => Err(e),
            Ok((out, any)) => match spec_splice_layer(ls.last(), ss, src, anim) {
                Err(e) => Err(e),
                Ok((l2, any2)) => Ok((out.push(l2), any || any2)),
            },
        }
    }
}

/// The whole replacement operation on a document: splice every layer; fail
/// with `NoPlaceholderReplaced` when nothing was substituted.
pub open spec fn spec_replace_doc(
    d: DocV,
    ss: Seq<SubV>,
    src: DesignBox,
    anim: Animation,
) -> Result<DocV, crate::Error> {
    match spec_splice_layers(d.layers, ss, src, anim) {
        Err(e) => Err(e),
        Ok((ls, any)) => {
            if any {
                Ok(DocV { layers: ls, ..d })
            } else {
                Err(crate::Error::NoPlaceholderReplaced)
            }
        },
    }
}

/// The glyph subpaths in splicing order: collected, then sorted top first,
/// then left first, in destination space.
pub open spec fn reorder(subs: Seq<SubV>, order: Seq<int>) -> Seq<SubV> {
    Seq::new(order.len(), |j: int| subs[order[j]])
}

pub open spec fn sorted_outline(cmds: Seq<DrawCmd>) -> Seq<SubV> {
    reorder(
        spec_outline(cmds),
        spec_order(SortKey::Position, spec_outline(cmds), Seq::empty()),
    )
}

// ---------------------------------------------------------------------------
// Laws of the splice: errors persist, and a document without a replaceable
// placeholder passes through unchanged.
// ---------------------------------------------------------------------------

proof fn lemma_splice_ph_err_extend(
    s: Seq<ItemV>,
    t: Seq<ItemV>,
    ss: Seq<SubV>,
    src: DesignBox,
    anim: Animation,
    start: Q,
    end: Q,
)
    requires
        spec_splice_ph(s, ss, src, anim, start, end) is Err,
    ensures
        spec_splice_ph(s + t, ss, src, anim, start, end) == spec_splice_ph(
            s,
            ss,
            src,
            anim,
            start,
            end,
        ),
    decreases t.len(),
{
    if t.len() == 0 {
        assert(s + t =~= s);
    } else {
        lemma_splice_ph_err_extend(s, t.drop_last(), ss, src, anim, start, end);
        assert((s + t).drop_last() =~= s + t.drop_last());
        assert((s + t).len() > 0);
    }
}

proof fn lemma_splice_items_err_extend(
    s: Seq<ItemV>,
    t: Seq<ItemV>,
    ss: Seq<SubV>,
    src: DesignBox,
    anim: Animation,
    start: Q,
    end: Q,
)
    requires
        spec_splice_items(s, ss, src, anim, start, end) is Err,
    ensures
        spec_splice_items(s + t, ss, src, anim, start, end) == spec_splice_items(
            s,
            ss,
            src,
            anim,
            start,
            end,
        ),
    decreases t.len(),
{
    if t.len() == 0 {
        assert(s + t =~= s);
    } else {
        lemma_splice_items_err_extend(s, t.drop_last(), ss, src, anim, start, end);
        assert((s + t).drop_last() =~= s + t.drop_last());
        assert((s + t).len() > 0);
    }
}

/// Some item offers a destination box.
pub open spec fn has_box(items: Seq<ItemV>) -> bool
    decreases items,
{
    if items.len() == 0 {
        false
    } else {
        has_box(items.drop_last()) || spec_item_box(items.last()) is Some
    }
}

/// Some placeholder group in the tree offers a box to replace.
pub open spec fn has_replaceable(items: Seq<ItemV>) -> bool
    decreases items,
{
    if items.len() == 0 {
        false
    } else {
        has_replaceable(items.drop_last()) || match items.last() {
            ItemV::Group(g) => if g.placeholder {
                has_box(g.items)
            } else {
                has_replaceable(g.items)
            },
            _ => false,
        }
    }
}

proof fn lemma_splice_ph_no_box(
    items: Seq<ItemV>,
    ss: Seq<SubV>,
    src: DesignBox,
    anim: Animation,
    start: Q,
    end: Q,
)
    requires
        !has_box(items),
    ensures
        spec_splice_ph(items, ss, src, anim, start, end) == Ok::<_, crate::Error>(
            (items, false),
        ),
    decreases items,
{
    if items.len() == 0 {
        assert(items =~= Seq::<ItemV>::empty());
    } else {
        lemma_splice_ph_no_box(items.drop_last(), ss, src, anim, start, end);
        assert(items.drop_last().push(items.last()) =~= items);
    }
}

/// A shape list with no replaceable placeholder splices to itself, replacing
/// nothing.
pub proof fn lemma_splice_items_no_replaceable(
    items: Seq<ItemV>,
    ss: Seq<SubV>,
    src: DesignBox,
    anim: Animation,
    start: Q,
    end: Q,
)
    requires
        !has_replaceable(items),
    ensures
        spec_splice_items(items, ss, src, anim, start, end) == Ok::<_, crate::Error>(
            (items, false),
        ),
    decreases items,
{
    if items.len() == 0 {
        assert(items =~= Seq::<ItemV>::empty());
    } else {
        lemma_splice_items_no_replaceable(items.drop_last(), ss, src, anim, start, end);
        match items.last() {
            ItemV::Group(g) => {
                if g.placeholder {
                    lemma_splice_ph_no_box(g.items, ss, src, anim, start, end);
                    assert(items.drop_last().push(
                        ItemV::Group(GroupV { placeholder: g.placeholder, items: g.items }),
                    ) =~= items);
                } else {
                    lemma_splice_items_no_replaceable(g.items, ss, src, anim, start, end);
                    assert(items.drop_last().push(
                        ItemV::Group(GroupV { placeholder: g.placeholder, items: g.items }),
                    ) =~= items);
                }
            },
            _ => {
                assert(items.drop_last().push(items.last()) =~= items);
            },
        }
    }
}

/// A template without a replaceable placeholder makes the whole operation
/// fail with `NoPlaceholderReplaced`; in particular a template with zero
/// placeholder groups does.
pub proof fn lemma_no_placeholder_fails(d: DocV, ss: Seq<SubV>, src: DesignBox, anim: Animation)
    requires
        forall|k: int| 0 <= k < d.layers.len() ==> !has_replaceable((#[trigger] d.layers[k]).shapes),
    ensures
        spec_replace_doc(d, ss, src, anim) == Err::<DocV, _>(crate::Error::NoPlaceholderReplaced),
{
    lemma_layers_no_replaceable(d.layers, ss, src, anim);
}

proof fn lemma_layers_no_replaceable(
    ls: Seq<LayerV>,
    ss: Seq<SubV>,
    src: DesignBox,
    anim: Animation,
)
    requires
        forall|k: int| 0 <= k < ls.len() ==> !has_replaceable((#[trigger] ls[k]).shapes),
    ensures
        spec_splice_layers(ls, ss, src, anim) matches Ok((out, any)) && !any,
    decreases ls.len(),
{
    if ls.len() > 0 {
        lemma_layers_no_replaceable(ls.drop_last(), ss, src, anim);
        lemma_splice_items_no_replaceable(
            ls.last().shapes,
            ss,
            src,
            anim,
            ls.last().in_point,
            ls.last().out_point,
        );
    }
}


// ---------------------------------------------------------------------------
// Exec splicer
// ---------------------------------------------------------------------------

/// Conditions the splicer needs of its context: well-formed sorted glyph
/// subpaths, a bounded source box, and a bounded, forward layer window.
pub open spec fn splice_pre(
    subs: Seq<SubV>,
    src: DesignBox,
    start: Q,
    end: Q,
) -> bool {
    &&& outline_wf(subs)
    &&& subs.len() <= 100_000_000
    &&& design_box_in_range(src)
    &&& q_small(start)
    &&& q_small(end)
    &&& crate::mapper::q_lt(start, end)
}

/// Splice the items of one placeholder group.
#[verifier::rlimit(80)]
fn splice_ph_exec(
    items: &Vec<ShapeItem>,
    subs: &Vec<Subpath>,
    src: &DesignBox,
    anim: &Animation,
    start: &Q,
    end: &Q,
) -> (r: Result<(Vec<ShapeItem>, bool), crate::Error>)
    requires
        itemsv_wf(items_view(items@)),
        splice_pre(subs@.map_values(|s: Subpath| s@), *src, *start, *end),
    ensures
        ({
            let sp = spec_splice_ph(
                items_view(items@),
                subs@.map_values(|s: Subpath| s@),
                *src,
                *anim,
                *start,
                *end,
            );
            match r {
                Ok((out, any)) => sp == Ok::<_, crate::Error>((items_view(out@), any)),
                Err(e) => sp == Err::<(Seq<ItemV>, bool), _>(e),
            }
        }),
{
    let ghost views = subs@.map_values(|s: Subpath| s@);
    let ghost allv = items_view(items@);
    let n = items.len();
    let mut out: Vec<ShapeItem> = Vec::new();
    let mut any = false;
    let mut i: usize = 0;
    while i < n
        invariant
            views == subs@.map_values(|s: Subpath| s@),
            allv == items_view(items@),
            itemsv_wf(allv),
            splice_pre(views, *src, *start, *end),
            n == items@.len(),
            0 <= i <= n,
            spec_splice_ph(items_view(items@.subrange(0, i as int)), views, *src, *anim, *start, *end)
                == Ok::<_, crate::Error>((items_view(out@), any)),
        decreases n - i,
    {
        let ghost prefix = items@.subrange(0, i as int);
        let ghost prefixv = items_view(prefix);
        proof {
            assert(items@.subrange(0, i as int + 1) =~= prefix.push(items@[i as int]));
            lemma_items_view_len(prefix.push(items@[i as int]));
            lemma_items_view_len(prefix);
            lemma_items_view_len(items@);
            assert(items_view(prefix.push(items@[i as int])).drop_last() =~= prefixv);
            assert(items_view(prefix.push(items@[i as int])).last() == item_view(items@[i as int]));
            lemma_itemsv_wf_index(allv, i as int);
        }
        let it = &items[i];
        let b = item_box(it);
        match b {
            Option::None => {
                let ghost out_before = out@;
                let d = dup_item(it);
                out.push(d);
                proof {
                    assert(out@.drop_last() =~= out_before);
                    assert(items_view(out@) =~= items_view(out_before).push(
                        item_view(items@[i as int]),
                    ));
                }
            },
            Option::Some(bx) => {
                proof {
                    lemma_qbox_small_of_item(allv[i as int]);
                }
                match CoordinateMapper::new(src, &bx) {
                    Result::Err(e) => {
                        proof {
                            assert(spec_splice_ph(
                                items_view(prefix.push(items@[i as int])),
                                views,
                                *src,
                                *anim,
                                *start,
                                *end,
                            ) == Err::<(Seq<ItemV>, bool), _>(crate::Error::InvalidBox));
                            lemma_splice_ph_err_extend(
                                items_view(prefix.push(items@[i as int])),
                                items_view(items@).subrange(i as int + 1, items@.len() as int),
                                views,
                                *src,
                                *anim,
                                *start,
                                *end,
                            );
                            assert(items_view(prefix.push(items@[i as int])) + items_view(
                                items@,
                            ).subrange(i as int + 1, items@.len() as int) =~= items_view(items@));
                        }
                        return Err(e);
                    },
                    Result::Ok(m) => {
                        proof {
                            assert(m == mapper_of(*src, bx));
                        }
                        let mut rep = anim.animate(start, end, subs, &m);
                        let ghost out_before = out@;
                        let ghost rep_before = rep@;
                        out.append(&mut rep);
                        any = true;
                        proof {
                            assert(out@ == out_before + rep_before);
                            lemma_items_view_concat(out_before, rep_before);
                            assert(items_view(out@) == items_view(out_before) + items_view(
                                rep_before,
                            ));
                        }
                    },
                }
            },
        }
        i = i + 1;
    }
    proof {
        assert(items@.subrange(0, n as int) =~= items@);
    }
    Ok((out, any))
}

/// The box an item offers is within the accepted caps.
proof fn lemma_qbox_small_of_item(it: ItemV)
    requires
        itemv_wf(it),
        spec_item_box(it) is Some,
    ensures
        qbox_small(spec_item_box(it)->Some_0),
{
    match it {
        ItemV::Shape(sh) => {
            if sh.vertices.len() > 0 {
                lemma_shape_cbox_bounded(sh, 3 * sh.vertices.len() as int);
            }
        },
        _ => {},
    }
}

proof fn lemma_shape_cbox_bounded(sh: ShapeV, m: int)
    requires
        shape_small(sh),
        sh.vertices.len() > 0,
        1 <= m <= 3 * sh.vertices.len(),
    ensures
        ({
            let b = shape_cbox_upto(sh, m);
            -1_000_000_000_000 <= b.x0 <= 1_000_000_000_000 && -1_000_000_000_000 <= b.y0
                <= 1_000_000_000_000 && -1_000_000_000_000 <= b.x1 <= 1_000_000_000_000
                && -1_000_000_000_000 <= b.y1 <= 1_000_000_000_000
        }),
    decreases m,
{
    assert(0 <= (m - 1) / 3 < sh.vertices.len());
    if m > 1 {
        lemma_shape_cbox_bounded(sh, m - 1);
    }
}

/// `items_view` distributes over concatenation.
proof fn lemma_items_view_concat(s: Seq<ShapeItem>, t: Seq<ShapeItem>)
    ensures
        items_view(s + t) == items_view(s) + items_view(t),
    decreases t.len(),
{
    if t.len() == 0 {
        assert(s + t =~= s);
        assert(items_view(s) + items_view(t) =~= items_view(s));
    } else {
        lemma_items_view_concat(s, t.drop_last());
        assert((s + t).drop_last() =~= s + t.drop_last());
        assert((s + t).last() == t.last());
        assert(items_view(s) + items_view(t) =~= (items_view(s) + items_view(t.drop_last())).push(
            item_view(t.last()),
        ));
    }
}

/// Splice a shape list, descending into nested groups.
#[verifier::rlimit(80)]
fn splice_items_exec(
    items: &Vec<ShapeItem>,
    subs: &Vec<Subpath>,
    src: &DesignBox,
    anim: &Animation,
    start: &Q,
    end: &Q,
) -> (r: Result<(Vec<ShapeItem>, bool), crate::Error>)
    requires
        itemsv_wf(items_view(items@)),
        splice_pre(subs@.map_values(|s: Subpath| s@), *src, *start, *end),
    ensures
        ({
            let sp = spec_splice_items(
                items_view(items@),
                subs@.map_values(|s: Subpath| s@),
                *src,
                *anim,
                *start,
                *end,
            );
            match r {
                Ok((out, any)) => sp == Ok::<_, crate::Error>((items_view(out@), any)),
                Err(e) => sp == Err::<(Seq<ItemV>, bool), _>(e),
            }
        }),
    decreases items_height(items_view(items@)),
{
    let ghost views = subs@.map_values(|s: Subpath| s@);
    let ghost allv = items_view(items@);
    let n = items.len();
    let mut out: Vec<ShapeItem> = Vec::new();
    let mut any = false;
    let mut i: usize = 0;
    while i < n
        invariant
            views == subs@.map_values(|s: Subpath| s@),
            allv == items_view(items@),
            itemsv_wf(allv),
            splice_pre(views, *src, *start, *end),
            n == items@.len(),
            0 <= i <= n,
            spec_splice_items(
                items_view(items@.subrange(0, i as int)),
                views,
                *src,
                *anim,
                *start,
                *end,
            ) == Ok::<_, crate::Error>((items_view(out@), any)),
        decreases n - i,
    {
        let ghost prefix = items@.subrange(0, i as int);
        let ghost prefixv = items_view(prefix);
        proof {
            assert(items@.subrange(0, i as int + 1) =~= prefix.push(items@[i as int]));
            lemma_items_view_len(prefix.push(items@[i as int]));
            lemma_items_view_len(prefix);
            lemma_items_view_len(items@);
            assert(items_view(prefix.push(items@[i as int])).drop_last() =~= prefixv);
            assert(items_view(prefix.push(items@[i as int])).last() == item_view(items@[i as int]));
            lemma_itemsv_wf_index(allv, i as int);
        }
        let it = &items[i];
        match it {
            ShapeItem::Group(g) => {
                proof {
                    assert(item_view(items@[i as int]) == ItemV::Group(
                        GroupV { placeholder: g.placeholder, items: items_view(g.items@) },
                    ));
                    lemma_items_height_le(allv, i as int);
                }
                let inner = if g.placeholder {
                    splice_ph_exec(&g.items, subs, src, anim, start, end)
                } else {
                    splice_items_exec(&g.items, subs, src, anim, start, end)
                };
                match inner {
                    Result::Err(e) => {
                        proof {
                            lemma_splice_items_err_extend(
                                items_view(prefix.push(items@[i as int])),
                                items_view(items@).subrange(i as int + 1, items@.len() as int),
                                views,
                                *src,
                                *anim,
                                *start,
                                *end,
                            );
                            assert(items_view(prefix.push(items@[i as int])) + items_view(
                                items@,
                            ).subrange(i as int + 1, items@.len() as int) =~= items_view(items@));
                        }
                        return Err(e);
                    },
                    Result::Ok((gi, any2)) => {
                        let ghost out_before = out@;
                        let ghost giv = items_view(gi@);
                        out.push(
                            ShapeItem::Group(GroupNode { placeholder: g.placeholder, items: gi }),
                        );
                        any = any || any2;
                        proof {
                            assert(out@.drop_last() =~= out_before);
                            assert(item_view(out@.last()) == ItemV::Group(
                                GroupV { placeholder: g.placeholder, items: giv },
                            ));
                            assert(items_view(out@) =~= items_view(out_before).push(
                                item_view(out@.last()),
                            ));
                            assert(spec_splice_items(
                                items_view(prefix.push(items@[i as int])),
                                views,
                                *src,
                                *anim,
                                *start,
                                *end,
                            ) == Ok::<_, crate::Error>((items_view(out@), any)));
                        }
                    },
                }
            },
            _ => {
                let ghost out_before = out@;
                let d = dup_item(it);
                out.push(d);
                proof {
                    assert(out@.drop_last() =~= out_before);
                    assert(items_view(out@) =~= items_view(out_before).push(
                        item_view(items@[i as int]),
                    ));
                    assert(spec_splice_items(
                        items_view(prefix.push(items@[i as int])),
                        views,
                        *src,
                        *anim,
                        *start,
                        *end,
                    ) == Ok::<_, crate::Error>((items_view(out@), any)));
                }
            },
        }
        i = i + 1;
    }
    proof {
        assert(items@.subrange(0, n as int) =~= items@);
    }
    Ok((out, any))
}

proof fn lemma_splice_layers_err_extend(
    s: Seq<LayerV>,
    t: Seq<LayerV>,
    ss: Seq<SubV>,
    src: DesignBox,
    anim: Animation,
)
    requires
        spec_splice_layers(s, ss, src, anim) is Err,
    ensures
        spec_splice_layers(s + t, ss, src, anim) == spec_splice_layers(s, ss, src, anim),
    decreases t.len(),
{
    if t.len() == 0 {
        assert(s + t =~= s);
    } else {
        lemma_splice_layers_err_extend(s, t.drop_last(), ss, src, anim);
        assert((s + t).drop_last() =~= s + t.drop_last());
        assert((s + t).len() > 0);
    }
}

/// Duplicate a subpath; the copy has the same view.
fn dup_subpath(s: &Subpath) -> (r: Subpath)
    ensures
        r@ == s@,
{
    let mut vertices: Vec<crate::geom::Pt> = Vec::new();
    let mut out_off: Vec<crate::geom::Pt> = Vec::new();
    let mut in_off: Vec<crate::geom::Pt> = Vec::new();
    let n = s.vertices.len();
    let mut i: usize = 0;
    while i < n
        invariant
            n == s.vertices@.len(),
            0 <= i <= n,
            vertices@ =~= s.vertices@.subrange(0, i as int),
        decreases n - i,
    {
        vertices.push(s.vertices[i]);
        i = i + 1;
    }
    let no = s.out_off.len();
    let mut i2: usize = 0;
    while i2 < no
        invariant
            no == s.out_off@.len(),
            0 <= i2 <= no,
            out_off@ =~= s.out_off@.subrange(0, i2 as int),
        decreases no - i2,
    {
        out_off.push(s.out_off[i2]);
        i2 = i2 + 1;
    }
    let ni = s.in_off.len();
    let mut i3: usize = 0;
    while i3 < ni
        invariant
            ni == s.in_off@.len(),
            0 <= i3 <= ni,
            in_off@ =~= s.in_off@.subrange(0, i3 as int),
        decreases ni - i3,
    {
        in_off.push(s.in_off[i3]);
        i3 = i3 + 1;
    }
    let r = Subpath { vertices, out_off, in_off, closed: s.closed };
    proof {
        assert(r.vertices@ =~= s.vertices@);
        assert(r.out_off@ =~= s.out_off@);
        assert(r.in_off@ =~= s.in_off@);
        assert(r@ =~~= s@);
    }
    r
}

impl Document {
    /// Replace every placeholder of the template with animated content built
    /// from the glyph outline drawn in `glyph`.
    ///
    /// On any error the document is unchanged; `NoPlaceholderReplaced` comes
    /// back exactly when the whole tree offered nothing to substitute, and
    /// `InvalidBox` when a destination or source box has non-positive width
    /// or height.
    pub fn replace_shape(
        &mut self,
        font_drawbox: &DesignBox,
        glyph: &Vec<DrawCmd>,
        animation: &Animation,
    ) -> (r: Result<(), crate::Error>)
        requires
            docv_wf(old(self)@),
            design_box_in_range(*font_drawbox),
            wf_cmds(glyph@),
            cmds_in_range(glyph@),
            glyph@.len() < 100_000_000,
        ensures
            ({
                let sp = spec_replace_doc(
                    old(self)@,
                    sorted_outline(glyph@),
                    *font_drawbox,
                    *animation,
                );
                match r {
                    Ok(()) => sp == Ok::<_, crate::Error>(final(self)@),
                    Err(e) => final(self)@ == old(self)@ && sp == Err::<DocV, _>(e),
                }
            }),
    {
        let ghost ss = sorted_outline(glyph@);
        let subs0 = collect_outline(glyph);
        let noflags: Vec<bool> = Vec::new();
        let order = crate::group::sorted_order(&subs0, &noflags, SortKey::Position);
        let mut sorted: Vec<Subpath> = Vec::new();
        let on = order.len();
        let mut j: usize = 0;
        while j < on
            invariant
                on == order@.len(),
                forall|k: int| 0 <= k < order@.len() ==> (#[trigger] order@[k]) < subs0@.len(),
                0 <= j <= on,
                sorted@.len() == j,
                forall|k: int| 0 <= k < j ==> (#[trigger] sorted@[k])@ == subs0@[order@[k] as int]@,
            decreases on - j,
        {
            let d = dup_subpath(&subs0[order[j]]);
            sorted.push(d);
            j = j + 1;
        }
        proof {
            assert(noflags@ =~= Seq::<bool>::empty());
            assert(subs0@.map_values(|s: Subpath| s@) == spec_outline(glyph@));
            assert forall|k: int| 0 <= k < sorted@.len() implies (#[trigger] sorted@[k])@ == ss[k] by {
                assert(sorted@[k]@ == subs0@[order@[k] as int]@);
                assert(subs0@.map_values(|s: Subpath| s@)[order@[k] as int] == subs0@[order@[k] as int]@);
                assert(crate::group::to_ints(order@)[k] == order@[k] as int);
            }
            assert(sorted@.map_values(|s: Subpath| s@) =~= ss);
            assert forall|k: int| 0 <= k < ss.len() implies crate::outline::subv_wf(#[trigger] ss[k]) by {
                assert(ss[k] == subs0@.map_values(|s: Subpath| s@)[crate::group::to_ints(order@)[k]]);
            }
        }
        let ghost oldv = self@;
        let nl = self.layers.len();
        let mut new_layers: Vec<ShapeLayer> = Vec::new();
        let mut any = false;
        proof {
            assert(oldv.layers.subrange(0, 0) =~= Seq::<LayerV>::empty());
            assert(new_layers@.map_values(|l2: ShapeLayer| l2@) =~= Seq::<LayerV>::empty());
        }
        let mut li: usize = 0;
        while li < nl
            invariant
                docv_wf(oldv),
                oldv == self@,
                design_box_in_range(*font_drawbox),
                ss == sorted_outline(glyph@),
                sorted@.map_values(|s: Subpath| s@) == ss,
                outline_wf(ss),
                ss.len() <= 100_000_000,
                nl == self.layers@.len(),
                0 <= li <= nl,
                new_layers@.len() == li,
                spec_splice_layers(oldv.layers.subrange(0, li as int), ss, *font_drawbox, *animation)
                    == Ok::<_, crate::Error>((
                    new_layers@.map_values(|l: ShapeLayer| l@),
                    any,
                )),
            decreases nl - li,
        {
            let ghost lprefix = oldv.layers.subrange(0, li as int);
            proof {
                assert(oldv.layers[li as int] == self.layers@[li as int]@);
                assert(oldv.layers.subrange(0, li as int + 1) =~= lprefix.push(
                    oldv.layers[li as int],
                ));
                assert(lprefix.push(oldv.layers[li as int]).drop_last() =~= lprefix);
            }
            let l = &self.layers[li];
            let res = splice_items_exec(&l.shapes, &sorted, font_drawbox, animation, &l.in_point, &l.out_point);
            match res {
                Result::Err(e) => {
                    proof {
                        lemma_splice_layers_err_extend(
                            lprefix.push(oldv.layers[li as int]),
                            oldv.layers.subrange(li as int + 1, oldv.layers.len() as int),
                            ss,
                            *font_drawbox,
                            *animation,
                        );
                        assert(lprefix.push(oldv.layers[li as int]) + oldv.layers.subrange(
                            li as int + 1,
                            oldv.layers.len() as int,
                        ) =~= oldv.layers);
                    }
                    return Err(e);
                },
                Result::Ok((sh, any2)) => {
                    let ghost nl_before = new_layers@;
                    let ghost shv = items_view(sh@);
                    new_layers.push(
                        ShapeLayer { in_point: l.in_point, out_point: l.out_point, shapes: sh },
                    );
                    any = any || any2;
                    proof {
                        assert(new_layers@.last()@ == LayerV {
                            in_point: oldv.layers[li as int].in_point,
                            out_point: oldv.layers[li as int].out_point,
                            shapes: shv,
                        });
                        assert(new_layers@.map_values(|l2: ShapeLayer| l2@) =~= nl_before.map_values(
                            |l2: ShapeLayer| l2@,
                        ).push(new_layers@.last()@));
                    }
                },
            }
            li = li + 1;
        }
        proof {
            assert(oldv.layers.subrange(0, nl as int) =~= oldv.layers);
        }
        if !any {
            return Err(crate::Error::NoPlaceholderReplaced);
        }
        self.layers = new_layers;
        proof {
            assert(self@ =~~= (DocV {
                layers: new_layers@.map_values(|l2: ShapeLayer| l2@),
                ..oldv
            }));
        }
        Ok(())
    }
}


/// The built-in template: a one second, 60 frames-per-second document the
/// size of the font design box, holding a single placeholder group of a
/// rectangle covering the box, a fill, and an identity transform.
pub open spec fn spec_default_template(b: DesignBox) -> DocV {
    DocV {
        in_point: Q { num: 0, den: 1 },
        out_point: Q { num: 60, den: 1 },
        frame_rate: Q { num: 60, den: 1 },
        width: (b.x1 - b.x0) as i64,
        height: (b.y1 - b.y0) as i64,
        layers: seq![
            LayerV {
                in_point: Q { num: 0, den: 1 },
                out_point: Q { num: 60, den: 1 },
                shapes: seq![
                    ItemV::Group(
                        GroupV {
                            placeholder: true,
                            items: seq![
                                ItemV::Rect(
                                    RectShape {
                                        pos: QPt {
                                            x: Q { num: 0, den: 1 },
                                            y: Q { num: 0, den: 1 },
                                        },
                                        size: QPt {
                                            x: Q { num: ((b.x1 - b.x0) as i64) as i128, den: 1 },
                                            y: Q { num: ((b.y1 - b.y0) as i64) as i128, den: 1 },
                                        },
                                    },
                                ),
                                ItemV::Fill(FillShape { opacity: Q { num: 100, den: 1 } }),
                                ItemV::Transform(
                                    TransformV {
                                        anchor: QPt {
                                            x: Q { num: 0, den: 1 },
                                            y: Q { num: 0, den: 1 },
                                        },
                                        position: QPt {
                                            x: Q { num: 0, den: 1 },
                                            y: Q { num: 0, den: 1 },
                                        },
                                        scale: TrackV::Fixed(
                                            seq![Q { num: 100, den: 1 }, Q { num: 100, den: 1 }],
                                        ),
                                        rotation: TrackV::Fixed(seq![Q { num: 0, den: 1 }]),
                                    },
                                ),
                            ],
                        },
                    ),
                ],
            },
        ],
    }
}

/// Build the built-in template for a font design box.
pub fn default_template(font_drawbox: &DesignBox) -> (r: Document)
    requires
        design_box_in_range(*font_drawbox),
    ensures
        r@ == spec_default_template(*font_drawbox),
        docv_wf(r@),
{
    let w = font_drawbox.x1 - font_drawbox.x0;
    let h = font_drawbox.y1 - font_drawbox.y0;
    let mut scale_fixed: Vec<Q> = Vec::new();
    scale_fixed.push(Q { num: 100, den: 1 });
    scale_fixed.push(Q { num: 100, den: 1 });
    let mut rot_fixed: Vec<Q> = Vec::new();
    rot_fixed.push(Q { num: 0, den: 1 });
    let mut items: Vec<ShapeItem> = Vec::new();
    items.push(
        ShapeItem::Rect(
            RectShape {
                pos: QPt { x: Q { num: 0, den: 1 }, y: Q { num: 0, den: 1 } },
                size: QPt { x: Q { num: w as i128, den: 1 }, y: Q { num: h as i128, den: 1 } },
            },
        ),
    );
    items.push(ShapeItem::Fill(FillShape { opacity: Q { num: 100, den: 1 } }));
    items.push(
        ShapeItem::Transform(
            TransformShape {
                anchor: QPt { x: Q { num: 0, den: 1 }, y: Q { num: 0, den: 1 } },
                position: QPt { x: Q { num: 0, den: 1 }, y: Q { num: 0, den: 1 } },
                scale: Track::Fixed(scale_fixed),
                rotation: Track::Fixed(rot_fixed),
            },
        ),
    );
    let ghost items_v = items@;
    let mut shapes: Vec<ShapeItem> = Vec::new();
    shapes.push(ShapeItem::Group(GroupNode { placeholder: true, items }));
    let ghost shapes_v = shapes@;
    let mut layers: Vec<ShapeLayer> = Vec::new();
    layers.push(
        ShapeLayer {
            in_point: Q { num: 0, den: 1 },
            out_point: Q { num: 60, den: 1 },
            shapes,
        },
    );
    let r = Document {
        in_point: Q { num: 0, den: 1 },
        out_point: Q { num: 60, den: 1 },
        frame_rate: Q { num: 60, den: 1 },
        width: w,
        height: h,
        layers,
    };
    proof {
        let spec = spec_default_template(*font_drawbox);
        lemma_items_view_len(shapes_v);
        lemma_items_view_len(items_v);
        assert(r@.layers.len() == 1);
        assert(r@.layers[0] == layers@[0]@);
        assert(layers@[0]@.shapes == items_view(shapes_v));
        assert(items_view(shapes_v)[0] == item_view(shapes_v[0]));
        assert(item_view(shapes_v[0]) == ItemV::Group(
            GroupV { placeholder: true, items: items_view(items_v) },
        ));
        let spec_items = match spec.layers[0].shapes[0] {
            ItemV::Group(g) => g.items,
            _ => Seq::empty(),
        };
        assert(items_view(items_v)[0] == item_view(items_v[0]));
        assert(items_view(items_v)[1] == item_view(items_v[1]));
        assert(items_view(items_v)[2] == item_view(items_v[2]));
        assert(item_view(items_v[0]) =~~= spec_items[0]);
        assert(item_view(items_v[1]) =~~= spec_items[1]);
        assert(item_view(items_v[2]) =~~= spec_items[2]);
        assert(items_view(items_v) =~~= spec_items);
        assert(items_view(shapes_v) =~~= spec.layers[0].shapes);
        assert(r@.layers[0] =~~= spec.layers[0]);
        assert(r@.layers =~~= spec.layers);
        assert(r@ =~~= spec);
        // well-formedness of the produced document
        let gitems = items_view(items_v);
        let d1 = gitems.drop_last();
        let d2 = d1.drop_last();
        let d3 = d2.drop_last();
        assert(d3 =~= Seq::<ItemV>::empty());
        assert(itemsv_wf(d3));
        assert(d2.last() == gitems[0]);
        assert(d2.drop_last() =~= d3);
        assert(itemv_wf(gitems[0]));
        assert(itemsv_wf(d2));
        assert(d1.last() == gitems[1]);
        assert(d1.drop_last() =~= d2);
        assert(itemv_wf(gitems[1]));
        assert(itemsv_wf(d1));
        assert(gitems.last() == gitems[2]);
        assert(itemv_wf(gitems[2]));
        assert(itemsv_wf(gitems));
        let shv = items_view(shapes_v);
        assert(shv.drop_last() =~= Seq::<ItemV>::empty());
        assert(itemsv_wf(shv.drop_last()));
        assert(shv.last() == shv[0]);
        assert(itemv_wf(shv[0]));
        assert(itemsv_wf(shv));
        assert(layerv_wf(r@.layers[0]));
        assert forall|k: int| 0 <= k < r@.layers.len() implies layerv_wf(#[trigger] r@.layers[k]) by {
            assert(k == 0);
        }
    }
    r
}

} // verus!
