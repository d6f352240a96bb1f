use quickshot::overlay::hit::{
    anchor_center, classify, cursor_icon_for, CursorShape, HitZone, ANCHOR_HIT_PAD, ANCHOR_SIZE,
};
use quickshot::overlay::snap::{drag_threshold_exceeded, snap_layer, window_under_cursor, WindowEntry};
use quickshot::overlay::state::{Anchor, Rect};

fn rect() -> Rect {
    Rect { x: 100, y: 100, w: 100, h: 100 }
}

const ALL_ANCHORS: [Anchor; 8] = [
    Anchor::TL,
    Anchor::T,
    Anchor::TR,
    Anchor::R,
    Anchor::BR,
    Anchor::B,
    Anchor::BL,
    Anchor::L,
];

#[test]
fn anchor_centers_are_rect_corners_and_edge_midpoints() {
    let r = rect();
    assert_eq!(anchor_center(r, Anchor::TL), (100, 100));
    assert_eq!(anchor_center(r, Anchor::TR), (199, 100));
    assert_eq!(anchor_center(r, Anchor::BR), (199, 199));
    assert_eq!(anchor_center(r, Anchor::BL), (100, 199));
    assert_eq!(anchor_center(r, Anchor::T), (150, 100));
    assert_eq!(anchor_center(r, Anchor::B), (150, 199));
    assert_eq!(anchor_center(r, Anchor::L), (100, 150));
    assert_eq!(anchor_center(r, Anchor::R), (199, 150));
}

#[test]
fn classify_each_anchor_center_hits() {
    for a in ALL_ANCHORS {
        let c = anchor_center(rect(), a);
        assert_eq!(classify(c, rect()), HitZone::Anchor(a), "{a:?} miss");
    }
}

#[test]
fn classify_respects_hit_pad() {
    let half = ANCHOR_SIZE / 2 + ANCHOR_HIT_PAD;
    assert_eq!(classify((100 + half, 100 + half), rect()), HitZone::Anchor(Anchor::TL));
    assert_eq!(classify((100 + half + 1, 100 + half + 1), rect()), HitZone::Inside);
}

#[test]
fn classify_inside_not_on_anchor() {
    assert_eq!(classify((150, 150), rect()), HitZone::Inside);
}

#[test]
fn classify_outside() {
    assert_eq!(classify((10, 10), rect()), HitZone::Outside);
    assert_eq!(classify((300, 300), rect()), HitZone::Outside);
}

#[test]
fn cursor_icons() {
    assert_eq!(cursor_icon_for(HitZone::Anchor(Anchor::TL)), CursorShape::NwseResize);
    assert_eq!(cursor_icon_for(HitZone::Anchor(Anchor::TR)), CursorShape::NeswResize);
    assert_eq!(cursor_icon_for(HitZone::Anchor(Anchor::T)), CursorShape::NsResize);
    assert_eq!(cursor_icon_for(HitZone::Anchor(Anchor::L)), CursorShape::EwResize);
    assert_eq!(cursor_icon_for(HitZone::Inside), CursorShape::Move);
    assert_eq!(cursor_icon_for(HitZone::Outside), CursorShape::Default);
}

#[test]
fn cursor_icons_opposite_corners_share_shape() {
    assert_eq!(cursor_icon_for(HitZone::Anchor(Anchor::BR)), CursorShape::NwseResize);
    assert_eq!(cursor_icon_for(HitZone::Anchor(Anchor::BL)), CursorShape::NeswResize);
    assert_eq!(cursor_icon_for(HitZone::Anchor(Anchor::B)), CursorShape::NsResize);
    assert_eq!(cursor_icon_for(HitZone::Anchor(Anchor::R)), CursorShape::EwResize);
}

#[test]
fn classify_zero_width_rect_only_reports_anchors() {
    let r = Rect { x: 10, y: 10, w: 0, h: 0 };
    assert_eq!(classify((10, 10), r), HitZone::Anchor(Anchor::TL));
    assert_eq!(classify((100, 100), r), HitZone::Outside);
}

fn entry(x: i32, y: i32, w: i32, h: i32, layer: i32) -> WindowEntry {
    WindowEntry { bounds: Rect { x, y, w, h }, layer }
}

#[test]
fn window_under_cursor_returns_topmost() {
    // Both entries contain (75, 75); the first (topmost in z-order) wins.
    let entries = vec![entry(0, 0, 200, 200, 0), entry(50, 50, 200, 200, 0)];
    assert_eq!(
        window_under_cursor((75, 75), &entries),
        Some(Rect { x: 0, y: 0, w: 200, h: 200 })
    );
}

#[test]
fn window_under_cursor_returns_none_when_no_match() {
    let entries = vec![entry(0, 0, 100, 100, 0)];
    assert_eq!(window_under_cursor((500, 500), &entries), None);
}

#[test]
fn window_under_cursor_skips_empty_list() {
    assert_eq!(window_under_cursor((0, 0), &[]), None);
}

#[test]
fn window_under_cursor_finds_only_match() {
    let entries = vec![entry(0, 0, 100, 100, 0), entry(200, 200, 100, 100, 0)];
    assert_eq!(
        window_under_cursor((250, 250), &entries),
        Some(Rect { x: 200, y: 200, w: 100, h: 100 })
    );
}

#[test]
fn window_under_cursor_excludes_right_and_bottom_edges() {
    let entries = vec![entry(0, 0, 100, 100, 0)];
    assert_eq!(window_under_cursor((100, 50), &entries), None);
    assert_eq!(window_under_cursor((99, 99), &entries), Some(Rect { x: 0, y: 0, w: 100, h: 100 }));
}

#[test]
fn drag_threshold_at_zero_is_false() {
    assert!(!drag_threshold_exceeded((0, 0), (0, 0)));
}

#[test]
fn drag_threshold_under_4_is_false() {
    assert!(!drag_threshold_exceeded((0, 0), (1, 1)));
    assert!(!drag_threshold_exceeded((0, 0), (3, 0)));
    assert!(!drag_threshold_exceeded((0, 0), (0, 3)));
    assert!(!drag_threshold_exceeded((0, 0), (1, 2)));
}

#[test]
fn drag_threshold_at_or_over_4_is_true() {
    assert!(drag_threshold_exceeded((0, 0), (4, 0)));
    assert!(drag_threshold_exceeded((0, 0), (0, 4)));
    assert!(drag_threshold_exceeded((0, 0), (2, 2)));
    assert!(drag_threshold_exceeded((10, 10), (12, 12)));
}

#[test]
fn drag_threshold_works_with_negative_motion() {
    // |dx| + |dy| counts motion in every direction.
    assert!(drag_threshold_exceeded((10, 10), (6, 10)));
    assert!(drag_threshold_exceeded((10, 10), (10, 6)));
    assert!(drag_threshold_exceeded((10, 10), (8, 8)));
    assert!(!drag_threshold_exceeded((10, 10), (9, 9)));
}

#[test]
fn snap_layer_keeps_user_facing_windows_of_other_processes() {
    assert_eq!(snap_layer(42, 7, 0), Some(0));
    assert_eq!(snap_layer(42, 7, 3), Some(3));
    assert_eq!(snap_layer(42, 7, 19), Some(19));
}

#[test]
fn snap_layer_skips_own_invalid_and_system_windows() {
    assert_eq!(snap_layer(7, 7, 0), None);
    assert_eq!(snap_layer(0, 7, 0), None);
    assert_eq!(snap_layer(-3, 7, 0), None);
    assert_eq!(snap_layer(42, 7, 20), None);
    assert_eq!(snap_layer(42, 7, 24), None);
    assert_eq!(snap_layer(42, 7, 1500), None);
    assert_eq!(snap_layer(42, 7, -2147483624), None);
}
