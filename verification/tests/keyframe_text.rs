//! Tests of the textual scale keyframe builder.

use iconimation::transforms::{scale_keyframes, EASING};

#[test]
fn one_keyframe_text() {
    let r = scale_keyframes(vec![(100, 0)], 0);
    let expected = format!("{{\"s\":[100, 100, 100], \"t\": 0, {}}}", EASING);
    assert_eq!(r, expected);
}

#[test]
fn keyframes_join_with_commas_and_shift_by_delay() {
    let r = scale_keyframes(vec![(100, 0), (120, 12), (90, 24), (100, 36)], 3);
    let expected: String = [(100, 0), (120, 12), (90, 24), (100, 36)]
        .iter()
        .map(|(s, t)| format!("{{\"s\":[{}, {}, 100], \"t\": {}, {}}}", s, s, t + 3, EASING))
        .collect::<Vec<_>>()
        .join(",");
    assert_eq!(r, expected);
}

#[test]
fn negative_sizes_and_times_format_with_sign() {
    let r = scale_keyframes(vec![(-7, -5)], -10);
    let expected = format!("{{\"s\":[-7, -7, 100], \"t\": -15, {}}}", EASING);
    assert_eq!(r, expected);
}

#[test]
fn empty_list_yields_empty_text() {
    let r = scale_keyframes(Vec::new(), 4);
    assert_eq!(r, "");
}
