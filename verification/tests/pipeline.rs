//! End-to-end and component tests of the glyph animation pipeline.

use iconimation::animate::{default_ease, stagger_time_exec, Animation};
use iconimation::cli::CliAnimation;
use iconimation::fill::{a_contained_point, classify_filled};
use iconimation::geom::{area2_of, winding_at, Pt};
use iconimation::group::{group_icon_parts, sorted_order, SortKey};
use iconimation::mapper::{CoordinateMapper, DesignBox, Q, QBox};
use iconimation::outline::{collect_outline, DrawCmd};
use iconimation::template::{
    default_template, Document, EasePt, GroupNode, Keyframe, QPt, RectShape, ShapeItem,
    ShapeLayer, Track, TransformShape,
};
use iconimation::Error;

fn pt(x: i64, y: i64) -> Pt {
    Pt { x, y }
}

fn qi(v: i128) -> Q {
    Q { num: v, den: 1 }
}

/// A closed square drawn clockwise in y-up coordinates, in design units.
fn square_cw(x0: i64, y0: i64, x1: i64, y1: i64) -> Vec<DrawCmd> {
    vec![
        DrawCmd::MoveTo(pt(x0, y0)),
        DrawCmd::LineTo(pt(x0, y1)),
        DrawCmd::LineTo(pt(x1, y1)),
        DrawCmd::LineTo(pt(x1, y0)),
        DrawCmd::Close,
    ]
}

/// A closed square drawn counter-clockwise in y-up coordinates.
fn square_ccw(x0: i64, y0: i64, x1: i64, y1: i64) -> Vec<DrawCmd> {
    vec![
        DrawCmd::MoveTo(pt(x0, y0)),
        DrawCmd::LineTo(pt(x1, y0)),
        DrawCmd::LineTo(pt(x1, y1)),
        DrawCmd::LineTo(pt(x0, y1)),
        DrawCmd::Close,
    ]
}

fn cat(mut a: Vec<DrawCmd>, b: Vec<DrawCmd>) -> Vec<DrawCmd> {
    a.extend(b);
    a
}

#[test]
fn collects_lines_into_closed_subpath() {
    let subs = collect_outline(&square_cw(0, 0, 10, 10));
    assert_eq!(subs.len(), 1);
    let s = &subs[0];
    assert!(s.closed);
    // stored coordinates are design units scaled by 3
    assert_eq!(s.vertices, vec![pt(0, 0), pt(0, 30), pt(30, 30), pt(30, 0)]);
    for o in s.out_off.iter().chain(s.in_off.iter()) {
        assert_eq!(*o, pt(0, 0));
    }
}

#[test]
fn quadratic_elevation_is_exact() {
    // P0 = (0, 0), C = (3, 0), P1 = (6, 0)
    let cmds = vec![DrawCmd::MoveTo(pt(0, 0)), DrawCmd::QuadTo(pt(3, 0), pt(6, 0))];
    let subs = collect_outline(&cmds);
    assert_eq!(subs.len(), 1);
    let s = &subs[0];
    assert_eq!(s.vertices, vec![pt(0, 0), pt(18, 0)]);
    // C0 = P0/3 + 2C/3 = (2, 0); stored absolute control = vertex + offset = (6, 0) = 3 * C0
    assert_eq!(s.out_off[0], pt(6, 0));
    assert_eq!(s.vertices[0].x + s.out_off[0].x, 3 * (0 / 3 + 2 * 3 / 3));
    // C1 = 2C/3 + P1/3 = (4, 0); stored absolute control = (12, 0) = 3 * C1
    assert_eq!(s.in_off[1], pt(-6, 0));
    assert_eq!(s.vertices[1].x + s.in_off[1].x, 12);
}

#[test]
fn implicit_close_when_endpoints_coincide() {
    let cmds = vec![
        DrawCmd::MoveTo(pt(0, 0)),
        DrawCmd::LineTo(pt(5, 0)),
        DrawCmd::LineTo(pt(0, 0)),
    ];
    let subs = collect_outline(&cmds);
    assert!(subs[0].closed);
    let open = collect_outline(&vec![DrawCmd::MoveTo(pt(0, 0)), DrawCmd::LineTo(pt(5, 0))]);
    assert!(!open[0].closed);
}

#[test]
fn winding_and_area_of_squares() {
    let subs = collect_outline(&square_cw(0, 0, 10, 10));
    // clockwise in y-up coordinates: negative signed area
    assert_eq!(area2_of(&subs[0].vertices), -2 * 900);
    let inside = winding_at(&subs[0].vertices, pt(15, 15));
    assert_eq!(inside, -1);
    let outside = winding_at(&subs[0].vertices, pt(100, 100));
    assert_eq!(outside, 0);
    let ccw = collect_outline(&square_ccw(0, 0, 10, 10));
    assert_eq!(area2_of(&ccw[0].vertices), 2 * 900);
    assert_eq!(winding_at(&ccw[0].vertices, pt(15, 15)), 1);
}

#[test]
fn contained_point_found_for_square() {
    let subs = collect_outline(&square_cw(0, 0, 10, 10));
    let p = a_contained_point(&subs[0]);
    assert!(p.is_some());
    let p = p.unwrap();
    // the first of the nine probe candidates that the subpath contains: the
    // first vertex itself
    assert_eq!(p, pt(0, 0));
    assert_ne!(winding_at(&subs[0].vertices, p), 0);
}

#[test]
fn contained_point_indeterminate_for_single_vertex() {
    let subs = collect_outline(&vec![DrawCmd::MoveTo(pt(5, 5))]);
    assert_eq!(subs[0].vertices.len(), 1);
    assert!(a_contained_point(&subs[0]).is_none());
    // indeterminate classification treats the subpath as unfilled
    let filled = classify_filled(&subs);
    assert_eq!(filled, vec![false]);
}

#[test]
fn fill_classification_outer_filled_inner_hole() {
    // outer square clockwise, smaller square fully inside drawn the other way
    let cmds = cat(square_cw(0, 0, 10, 10), square_ccw(2, 2, 8, 8));
    let subs = collect_outline(&cmds);
    assert_eq!(subs.len(), 2);
    let filled = classify_filled(&subs);
    assert_eq!(filled, vec![true, false]);
}

#[test]
fn grouping_pairs_hole_with_container() {
    let cmds = cat(square_cw(0, 0, 10, 10), square_ccw(2, 2, 8, 8));
    let subs = collect_outline(&cmds);
    let (groups, orphans) = group_icon_parts(&subs);
    assert_eq!(groups.len(), 1);
    assert_eq!(groups[0].members, vec![0, 1]);
    assert!(orphans.is_empty());
}

#[test]
fn grouping_two_parts_larger_first() {
    // two disjoint filled squares; the larger opens its group first
    let cmds = cat(square_cw(0, 0, 4, 4), square_cw(20, 20, 30, 30));
    let subs = collect_outline(&cmds);
    let (groups, orphans) = group_icon_parts(&subs);
    assert_eq!(groups.len(), 2);
    assert_eq!(groups[0].members, vec![1]);
    assert_eq!(groups[1].members, vec![0]);
    assert!(orphans.is_empty());
}

#[test]
fn grouping_reports_orphans() {
    // a clockwise and a counter-clockwise square over the same area cancel:
    // both classify unfilled, no group opens, both are reported as orphans
    let cmds = cat(square_cw(0, 0, 10, 10), square_ccw(0, 0, 10, 10));
    let subs = collect_outline(&cmds);
    let filled = classify_filled(&subs);
    assert_eq!(filled, vec![false, false]);
    let (groups, orphans) = group_icon_parts(&subs);
    assert!(groups.is_empty());
    assert_eq!(orphans, vec![0, 1]);
}

#[test]
fn position_sort_orders_top_first() {
    // in the y-down destination, the subpath with the larger stored y comes
    // first; ties break leftmost first
    let cmds = cat(
        cat(square_cw(0, 0, 4, 4), square_cw(0, 20, 4, 24)),
        square_cw(10, 20, 14, 24),
    );
    let subs = collect_outline(&cmds);
    let order = sorted_order(&subs, &Vec::new(), SortKey::Position);
    assert_eq!(order, vec![1, 2, 0]);
}

fn unit_dst() -> QBox {
    QBox { x0: qi(0), y0: qi(0), x1: qi(960), y1: qi(960) }
}

#[test]
fn mapper_corners_land_on_destination_corners() {
    let src = DesignBox { x0: 0, y0: 0, x1: 1000, y1: 1000 };
    let m = CoordinateMapper::new(&src, &unit_dst()).unwrap();
    // stored units are design units scaled by 3
    let x0 = m.map_x(0);
    assert_eq!(x0.num, 0);
    let x1 = m.map_x(3000);
    assert_eq!(x1.num, 960 * x1.den);
    // the y flip: the source top edge lands on the destination top (min y)
    let ytop = m.map_y(3000);
    assert_eq!(ytop.num, 0);
    let ybot = m.map_y(0);
    assert_eq!(ybot.num, 960 * ybot.den);
    // an interior point maps by the exact scale 0.96
    let x = m.map_x(300);
    assert_eq!(x.num, 96 * x.den);
}

#[test]
fn mapper_rejects_degenerate_boxes() {
    let src = DesignBox { x0: 0, y0: 0, x1: 1000, y1: 1000 };
    let flat = QBox { x0: qi(0), y0: qi(0), x1: qi(0), y1: qi(960) };
    assert!(matches!(CoordinateMapper::new(&src, &flat), Err(Error::InvalidBox)));
    let zero_src = DesignBox { x0: 0, y0: 0, x1: 0, y1: 1000 };
    assert!(matches!(CoordinateMapper::new(&zero_src, &unit_dst()), Err(Error::InvalidBox)));
}

#[test]
fn stagger_times_shift_by_fifth_of_window() {
    let start = qi(0);
    let end = qi(60);
    // group 0 keyframes sit at steps 0, 1, 2; group i shifts each by i
    let t0 = stagger_time_exec(&start, &end, 0, 0);
    assert_eq!(t0.num, 0);
    let t1 = stagger_time_exec(&start, &end, 0, 1);
    assert_eq!(t1.num, 12 * t1.den);
    let t2 = stagger_time_exec(&start, &end, 0, 2);
    assert_eq!(t2.num, 24 * t2.den);
    let s1 = stagger_time_exec(&start, &end, 1, 0);
    assert_eq!(s1.num * t1.den, t1.num * s1.den);
}

#[test]
fn default_ease_handles() {
    let e = default_ease();
    assert_eq!(e.in_val, EasePt { x: 600, y: 1000 });
    assert_eq!(e.out_val, EasePt { x: 400, y: 0 });
}

#[test]
fn cli_kinds_map_to_library_kinds() {
    assert_eq!(CliAnimation::Still.to_lib(), Animation::Still);
    assert_eq!(CliAnimation::PulseWhole.to_lib(), Animation::PulseWhole);
    assert_eq!(CliAnimation::PulseParts.to_lib(), Animation::PulseParts);
    assert_eq!(CliAnimation::TwirlWhole.to_lib(), Animation::TwirlWhole);
    assert_eq!(CliAnimation::TwirlParts.to_lib(), Animation::TwirlParts);
}

/// A template with one 960 by 960 placeholder group.
fn placeholder_template() -> Document {
    let rect = ShapeItem::Rect(RectShape {
        pos: QPt { x: qi(0), y: qi(0) },
        size: QPt { x: qi(960), y: qi(960) },
    });
    let group = ShapeItem::Group(GroupNode { placeholder: true, items: vec![rect] });
    Document {
        in_point: qi(0),
        out_point: qi(60),
        frame_rate: qi(60),
        width: 960,
        height: 960,
        layers: vec![ShapeLayer { in_point: qi(0), out_point: qi(60), shapes: vec![group] }],
    }
}

fn glyph_square() -> Vec<DrawCmd> {
    square_cw(100, 100, 900, 900)
}

#[test]
fn end_to_end_pulse_whole() {
    let mut doc = placeholder_template();
    let font_box = DesignBox { x0: 0, y0: 0, x1: 1000, y1: 1000 };
    let r = doc.replace_shape(&font_box, &glyph_square(), &Animation::PulseWhole);
    assert!(r.is_ok());
    // the placeholder group now holds exactly one generated group
    let layer = &doc.layers[0];
    assert_eq!(layer.shapes.len(), 1);
    let ph = match &layer.shapes[0] {
        ShapeItem::Group(g) => g,
        _ => panic!("placeholder group expected"),
    };
    assert!(ph.placeholder);
    assert_eq!(ph.items.len(), 1);
    let generated = match &ph.items[0] {
        ShapeItem::Group(g) => g,
        _ => panic!("generated group expected"),
    };
    // shape, fill, transform
    assert_eq!(generated.items.len(), 3);
    let shape = match &generated.items[0] {
        ShapeItem::Shape(s) => s,
        _ => panic!("shape expected"),
    };
    assert!(shape.closed);
    assert_eq!(shape.vertices.len(), 4);
    // corner (100, 100) maps to (96, 864): x scales by 0.96, y flips
    assert_eq!(shape.vertices[0].x, 96 * shape.den_x);
    assert_eq!(shape.vertices[0].y, 864 * shape.den_y);
    // source is clockwise in y-up, so it renders clockwise after the flip
    assert_eq!(shape.direction, 1);
    assert!(matches!(generated.items[1], ShapeItem::Fill(_)));
    let transform = match &generated.items[2] {
        ShapeItem::Transform(t) => t,
        _ => panic!("transform expected"),
    };
    // anchor and position both sit at the mapped center (480, 480)
    assert_eq!(transform.anchor, transform.position);
    assert_eq!(transform.anchor.x.num, 480 * transform.anchor.x.den);
    assert_eq!(transform.anchor.y.num, 480 * transform.anchor.y.den);
    // the scale track has exactly 3 keyframes at 0, 12, 24 frames with
    // values 100 -> 150 -> 100
    let kfs: &Vec<Keyframe> = match &transform.scale {
        Track::Animated(kfs) => kfs,
        _ => panic!("animated scale expected"),
    };
    assert_eq!(kfs.len(), 3);
    assert_eq!(kfs[0].time.num, 0);
    assert_eq!(kfs[1].time.num, 12 * kfs[1].time.den);
    assert_eq!(kfs[2].time.num, 24 * kfs[2].time.den);
    assert_eq!(kfs[0].value, vec![100, 100]);
    assert_eq!(kfs[1].value, vec![150, 150]);
    assert_eq!(kfs[2].value, vec![100, 100]);
    // rotation stays fixed at zero
    match &transform.rotation {
        Track::Fixed(v) => {
            assert_eq!(v.len(), 1);
            assert_eq!(v[0].num, 0);
        },
        _ => panic!("fixed rotation expected"),
    }
}

#[test]
fn end_to_end_twirl_whole() {
    let mut doc = placeholder_template();
    let font_box = DesignBox { x0: 0, y0: 0, x1: 1000, y1: 1000 };
    let r = doc.replace_shape(&font_box, &glyph_square(), &Animation::TwirlWhole);
    assert!(r.is_ok());
    let ph = match &doc.layers[0].shapes[0] {
        ShapeItem::Group(g) => g,
        _ => panic!("group expected"),
    };
    let generated = match &ph.items[0] {
        ShapeItem::Group(g) => g,
        _ => panic!("group expected"),
    };
    let transform = match &generated.items[2] {
        ShapeItem::Transform(t) => t,
        _ => panic!("transform expected"),
    };
    let kfs = match &transform.rotation {
        Track::Animated(kfs) => kfs,
        _ => panic!("animated rotation expected"),
    };
    assert_eq!(kfs.len(), 2);
    assert_eq!(kfs[0].time.num, 0);
    assert_eq!(kfs[0].value, vec![0]);
    assert_eq!(kfs[1].time.num, 24 * kfs[1].time.den);
    assert_eq!(kfs[1].value, vec![360]);
}

#[test]
fn per_part_pulse_staggers_groups() {
    let mut doc = placeholder_template();
    let font_box = DesignBox { x0: 0, y0: 0, x1: 1000, y1: 1000 };
    // two disjoint filled squares become two parts
    let glyph = cat(square_cw(100, 100, 400, 400), square_cw(600, 600, 900, 900));
    let r = doc.replace_shape(&font_box, &glyph, &Animation::PulseParts);
    assert!(r.is_ok());
    let ph = match &doc.layers[0].shapes[0] {
        ShapeItem::Group(g) => g,
        _ => panic!("group expected"),
    };
    assert_eq!(ph.items.len(), 2);
    let times: Vec<(i128, i128)> = ph
        .items
        .iter()
        .map(|it| {
            let g = match it {
                ShapeItem::Group(g) => g,
                _ => panic!("group expected"),
            };
            let t = match &g.items[g.items.len() - 1] {
                ShapeItem::Transform(t) => t,
                _ => panic!("transform expected"),
            };
            match &t.scale {
                Track::Animated(kfs) => (kfs[0].time.num, kfs[0].time.den),
                _ => panic!("animated scale expected"),
            }
        })
        .collect();
    // group 0 starts at time 0, group 1 starts 0.2 * 60 = 12 frames later
    assert_eq!(times[0].0, 0);
    assert_eq!(times[1].0, 12 * times[1].1);
}

#[test]
fn still_emits_shapes_unmodified() {
    let mut doc = placeholder_template();
    let font_box = DesignBox { x0: 0, y0: 0, x1: 1000, y1: 1000 };
    let r = doc.replace_shape(&font_box, &glyph_square(), &Animation::Still);
    assert!(r.is_ok());
    let ph = match &doc.layers[0].shapes[0] {
        ShapeItem::Group(g) => g,
        _ => panic!("group expected"),
    };
    assert_eq!(ph.items.len(), 1);
    assert!(matches!(ph.items[0], ShapeItem::Shape(_)));
}

#[test]
fn no_placeholder_fails_and_leaves_document_unchanged() {
    let plain = ShapeItem::Group(GroupNode { placeholder: false, items: vec![] });
    let mut doc = Document {
        in_point: qi(0),
        out_point: qi(60),
        frame_rate: qi(60),
        width: 960,
        height: 960,
        layers: vec![ShapeLayer { in_point: qi(0), out_point: qi(60), shapes: vec![plain] }],
    };
    let font_box = DesignBox { x0: 0, y0: 0, x1: 1000, y1: 1000 };
    let r = doc.replace_shape(&font_box, &glyph_square(), &Animation::PulseWhole);
    assert!(matches!(r, Err(Error::NoPlaceholderReplaced)));
    assert_eq!(doc.layers.len(), 1);
    assert_eq!(doc.layers[0].shapes.len(), 1);
    match &doc.layers[0].shapes[0] {
        ShapeItem::Group(g) => {
            assert!(!g.placeholder);
            assert!(g.items.is_empty());
        },
        _ => panic!("group expected"),
    }
}

#[test]
fn degenerate_placeholder_box_is_invalid() {
    let rect = ShapeItem::Rect(RectShape {
        pos: QPt { x: qi(0), y: qi(0) },
        size: QPt { x: qi(0), y: qi(0) },
    });
    let group = ShapeItem::Group(GroupNode { placeholder: true, items: vec![rect] });
    let mut doc = Document {
        in_point: qi(0),
        out_point: qi(60),
        frame_rate: qi(60),
        width: 960,
        height: 960,
        layers: vec![ShapeLayer { in_point: qi(0), out_point: qi(60), shapes: vec![group] }],
    };
    let font_box = DesignBox { x0: 0, y0: 0, x1: 1000, y1: 1000 };
    let r = doc.replace_shape(&font_box, &glyph_square(), &Animation::PulseWhole);
    assert!(matches!(r, Err(Error::InvalidBox)));
}

#[test]
fn default_template_has_placeholder() {
    let font_box = DesignBox { x0: 0, y0: 0, x1: 1000, y1: 1000 };
    let mut doc = default_template(&font_box);
    assert_eq!(doc.width, 1000);
    assert_eq!(doc.height, 1000);
    assert_eq!(doc.layers.len(), 1);
    let r = doc.replace_shape(&font_box, &glyph_square(), &Animation::PulseWhole);
    assert!(r.is_ok());
}

#[test]
fn nested_placeholder_is_found() {
    let rect = ShapeItem::Rect(RectShape {
        pos: QPt { x: qi(0), y: qi(0) },
        size: QPt { x: qi(960), y: qi(960) },
    });
    let inner = ShapeItem::Group(GroupNode { placeholder: true, items: vec![rect] });
    let outer = ShapeItem::Group(GroupNode { placeholder: false, items: vec![inner] });
    let mut doc = Document {
        in_point: qi(0),
        out_point: qi(60),
        frame_rate: qi(60),
        width: 960,
        height: 960,
        layers: vec![ShapeLayer { in_point: qi(0), out_point: qi(60), shapes: vec![outer] }],
    };
    let font_box = DesignBox { x0: 0, y0: 0, x1: 1000, y1: 1000 };
    let r = doc.replace_shape(&font_box, &glyph_square(), &Animation::PulseWhole);
    assert!(r.is_ok());
}

#[test]
fn empty_glyph_pulses_an_empty_group() {
    let mut doc = placeholder_template();
    let font_box = DesignBox { x0: 0, y0: 0, x1: 1000, y1: 1000 };
    let r = doc.replace_shape(&font_box, &Vec::new(), &Animation::PulseWhole);
    assert!(r.is_ok());
    let ph = match &doc.layers[0].shapes[0] {
        ShapeItem::Group(g) => g,
        _ => panic!("group expected"),
    };
    let generated = match &ph.items[0] {
        ShapeItem::Group(g) => g,
        _ => panic!("group expected"),
    };
    // no shapes, just fill and transform anchored at the origin
    assert_eq!(generated.items.len(), 2);
    let transform = match &generated.items[1] {
        ShapeItem::Transform(t) => t,
        _ => panic!("transform expected"),
    };
    assert_eq!(transform.anchor.x.num, 0);
    assert_eq!(transform.anchor.y.num, 0);
}

#[test]
fn single_vertex_subpath_survives_the_pipeline() {
    let mut doc = placeholder_template();
    let font_box = DesignBox { x0: 0, y0: 0, x1: 1000, y1: 1000 };
    let glyph = vec![DrawCmd::MoveTo(pt(500, 500))];
    let r = doc.replace_shape(&font_box, &glyph, &Animation::PulseParts);
    assert!(r.is_ok());
    // the lone subpath is unfilled and unmatched, so no part group is made
    let ph = match &doc.layers[0].shapes[0] {
        ShapeItem::Group(g) => g,
        _ => panic!("group expected"),
    };
    assert!(ph.items.is_empty());
    let mut doc2 = placeholder_template();
    let r2 = doc2.replace_shape(&font_box, &glyph, &Animation::Still);
    assert!(r2.is_ok());
}

#[test]
fn per_part_twirl_staggers_rotation() {
    let mut doc = placeholder_template();
    let font_box = DesignBox { x0: 0, y0: 0, x1: 1000, y1: 1000 };
    let glyph = cat(square_cw(100, 100, 400, 400), square_cw(600, 600, 900, 900));
    let r = doc.replace_shape(&font_box, &glyph, &Animation::TwirlParts);
    assert!(r.is_ok());
    let ph = match &doc.layers[0].shapes[0] {
        ShapeItem::Group(g) => g,
        _ => panic!("group expected"),
    };
    assert_eq!(ph.items.len(), 2);
    for (i, it) in ph.items.iter().enumerate() {
        let g = match it {
            ShapeItem::Group(g) => g,
            _ => panic!("group expected"),
        };
        let t = match &g.items[g.items.len() - 1] {
            ShapeItem::Transform(t) => t,
            _ => panic!("transform expected"),
        };
        let kfs = match &t.rotation {
            Track::Animated(kfs) => kfs,
            _ => panic!("animated rotation expected"),
        };
        assert_eq!(kfs.len(), 2);
        // group i starts at i * 0.2 * 60 = 12 i frames and spins for 24
        assert_eq!(kfs[0].time.num, 12 * (i as i128) * kfs[0].time.den);
        assert_eq!(kfs[1].time.num, 12 * (i as i128 + 2) * kfs[1].time.den);
        assert_eq!(kfs[0].value, vec![0]);
        assert_eq!(kfs[1].value, vec![360]);
    }
}

#[test]
fn every_placeholder_of_every_layer_is_replaced() {
    let rect = |w: i128| ShapeItem::Rect(RectShape {
        pos: QPt { x: qi(0), y: qi(0) },
        size: QPt { x: qi(w), y: qi(w) },
    });
    let ph = |w: i128| ShapeItem::Group(GroupNode { placeholder: true, items: vec![rect(w)] });
    let mut doc = Document {
        in_point: qi(0),
        out_point: qi(60),
        frame_rate: qi(60),
        width: 960,
        height: 960,
        layers: vec![
            ShapeLayer {
                in_point: qi(0),
                out_point: qi(60),
                shapes: vec![ph(960), ph(480)],
            },
            ShapeLayer { in_point: qi(0), out_point: qi(30), shapes: vec![ph(240)] },
        ],
    };
    let font_box = DesignBox { x0: 0, y0: 0, x1: 1000, y1: 1000 };
    let r = doc.replace_shape(&font_box, &glyph_square(), &Animation::PulseWhole);
    assert!(r.is_ok());
    for layer in &doc.layers {
        for item in &layer.shapes {
            let g = match item {
                ShapeItem::Group(g) => g,
                _ => panic!("group expected"),
            };
            assert!(g.placeholder);
            assert_eq!(g.items.len(), 1);
            assert!(matches!(g.items[0], ShapeItem::Group(_)));
        }
    }
    // the second layer's shorter window scales its keyframe spacing: its
    // pulse peak sits at 0.2 * 30 = 6 frames
    let g = match &doc.layers[1].shapes[0] {
        ShapeItem::Group(g) => g,
        _ => panic!("group expected"),
    };
    let inner = match &g.items[0] {
        ShapeItem::Group(g) => g,
        _ => panic!("group expected"),
    };
    let t = match &inner.items[inner.items.len() - 1] {
        ShapeItem::Transform(t) => t,
        _ => panic!("transform expected"),
    };
    let kfs = match &t.scale {
        Track::Animated(kfs) => kfs,
        _ => panic!("animated scale expected"),
    };
    assert_eq!(kfs[1].time.num, 6 * kfs[1].time.den);
}

#[test]
fn placeholder_rect_box_is_position_plus_size() {
    // a placeholder rectangle away from the origin: the destination box is
    // position .. position + size, here (5,5) .. (7,7)
    let rect = ShapeItem::Rect(RectShape {
        pos: QPt { x: qi(5), y: qi(5) },
        size: QPt { x: qi(2), y: qi(2) },
    });
    let group = ShapeItem::Group(GroupNode { placeholder: true, items: vec![rect] });
    let mut doc = Document {
        in_point: qi(0),
        out_point: qi(60),
        frame_rate: qi(60),
        width: 960,
        height: 960,
        layers: vec![ShapeLayer { in_point: qi(0), out_point: qi(60), shapes: vec![group] }],
    };
    let font_box = DesignBox { x0: 0, y0: 0, x1: 1000, y1: 1000 };
    let r = doc.replace_shape(&font_box, &glyph_square(), &Animation::PulseWhole);
    assert!(r.is_ok());
    let ph = match &doc.layers[0].shapes[0] {
        ShapeItem::Group(g) => g,
        _ => panic!("group expected"),
    };
    let generated = match &ph.items[0] {
        ShapeItem::Group(g) => g,
        _ => panic!("group expected"),
    };
    let transform = match &generated.items[2] {
        ShapeItem::Transform(t) => t,
        _ => panic!("transform expected"),
    };
    // the glyph square's center (500, 500) lands at 5 + 500 * (2/1000) = 6
    assert_eq!(transform.anchor.x.num, 6 * transform.anchor.x.den);
    assert_eq!(transform.anchor.y.num, 6 * transform.anchor.y.den);
    // corner (100, 100) maps to x = 5 + 100 * 0.002 = 5.2 = 26/5
    let shape = match &generated.items[0] {
        ShapeItem::Shape(s) => s,
        _ => panic!("shape expected"),
    };
    assert_eq!(shape.vertices[0].x * 5, 26 * shape.den_x);
}
