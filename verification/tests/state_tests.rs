use quickshot::overlay::state::{
    on_double_click_adjusting, on_enter, on_escape, on_mouse_down_idle, on_mouse_move_dragging,
    Anchor, OverlayState, Rect, Transition,
};

#[test]
fn normalize_reversed_drag() {
    let r = Rect::normalize((80, 60), (20, 10));
    assert_eq!(r, Rect { x: 20, y: 10, w: 60, h: 50 });
}

#[test]
fn normalize_zero_drag() {
    let r = Rect::normalize((50, 50), (50, 50));
    assert_eq!(r, Rect { x: 50, y: 50, w: 0, h: 0 });
}

#[test]
fn contains_inside_and_edge() {
    let r = Rect { x: 10, y: 10, w: 20, h: 20 };
    assert!(r.contains((10, 10)));
    assert!(r.contains((29, 29)));
    assert!(!r.contains((30, 30)));
    assert!(!r.contains((9, 10)));
}

#[test]
fn clamp_shrinks_rect() {
    let r = Rect { x: -5, y: -5, w: 100, h: 100 }.clamp_to((50, 50));
    assert_eq!(r, Rect { x: 0, y: 0, w: 50, h: 50 });
}

#[test]
fn translate_offsets() {
    let r = Rect { x: 10, y: 10, w: 5, h: 5 }.translate(3, -4);
    assert_eq!(r, Rect { x: 13, y: 6, w: 5, h: 5 });
}

#[test]
fn resize_from_br_grows_both() {
    let r = Rect { x: 10, y: 10, w: 20, h: 20 }
        .resize_from_anchor(Anchor::BR, 5, 7);
    assert_eq!(r, Rect { x: 10, y: 10, w: 25, h: 27 });
}

#[test]
fn resize_from_tl_grows_up_left() {
    let r = Rect { x: 10, y: 10, w: 20, h: 20 }
        .resize_from_anchor(Anchor::TL, -3, -4);
    assert_eq!(r, Rect { x: 7, y: 6, w: 23, h: 24 });
}

#[test]
fn resize_collapses_to_minimum_1px() {
    let r = Rect { x: 10, y: 10, w: 5, h: 5 }
        .resize_from_anchor(Anchor::BR, -100, -100);
    assert_eq!(r.w, 1);
    assert_eq!(r.h, 1);
}

#[test]
fn resize_each_edge_only_moves_that_edge() {
    let base = Rect { x: 10, y: 10, w: 20, h: 20 };
    assert_eq!(
        base.resize_from_anchor(Anchor::T, 0, -5),
        Rect { x: 10, y: 5, w: 20, h: 25 }
    );
    assert_eq!(
        base.resize_from_anchor(Anchor::B, 0, 5),
        Rect { x: 10, y: 10, w: 20, h: 25 }
    );
    assert_eq!(
        base.resize_from_anchor(Anchor::L, -5, 0),
        Rect { x: 5, y: 10, w: 25, h: 20 }
    );
    assert_eq!(
        base.resize_from_anchor(Anchor::R, 5, 0),
        Rect { x: 10, y: 10, w: 25, h: 20 }
    );
}

#[test]
fn mouse_down_idle_starts_dragging() {
    let s = on_mouse_down_idle((42, 17));
    assert!(matches!(
        s,
        OverlayState::Dragging { start: (42, 17), end: (42, 17) }
    ));
}

#[test]
fn mouse_move_dragging_updates_end() {
    let s = on_mouse_move_dragging((10, 10), (25, 30));
    assert!(matches!(
        s,
        OverlayState::Dragging { start: (10, 10), end: (25, 30) }
    ));
}

#[test]
fn enter_in_idle_stays() {
    assert!(matches!(on_enter(OverlayState::Idle), Transition::Stay));
}

#[test]
fn enter_in_adjusting_confirms() {
    let s = OverlayState::Adjusting {
        rect: Rect { x: 1, y: 1, w: 10, h: 10 },
        edit: None,
    };
    match on_enter(s) {
        Transition::Confirm(r) => assert_eq!(r, Rect { x: 1, y: 1, w: 10, h: 10 }),
        t => panic!("expected Confirm, got {t:?}"),
    }
}

#[test]
fn enter_in_dragging_confirms_normalized() {
    let s = OverlayState::Dragging { start: (5, 5), end: (25, 15) };
    match on_enter(s) {
        Transition::Confirm(r) => assert_eq!(r, Rect { x: 5, y: 5, w: 20, h: 10 }),
        t => panic!("expected Confirm, got {t:?}"),
    }
}

#[test]
fn escape_always_cancels() {
    assert!(matches!(on_escape(OverlayState::Idle), Transition::Cancel));
    assert!(matches!(
        on_escape(OverlayState::Dragging { start: (0, 0), end: (10, 10) }),
        Transition::Cancel
    ));
}

#[test]
fn double_click_inside_confirms() {
    let r = Rect { x: 10, y: 10, w: 20, h: 20 };
    match on_double_click_adjusting(r, (15, 15)) {
        Transition::Confirm(got) => assert_eq!(got, r),
        t => panic!("expected Confirm, got {t:?}"),
    }
}

#[test]
fn double_click_outside_stays() {
    let r = Rect { x: 10, y: 10, w: 20, h: 20 };
    assert!(matches!(
        on_double_click_adjusting(r, (40, 40)),
        Transition::Stay
    ));
}

#[test]
fn clamp_is_idempotent() {
    let r = Rect { x: -20, y: 30, w: 500, h: 40 }.clamp_to((100, 60));
    assert_eq!(r, Rect { x: 0, y: 30, w: 100, h: 30 });
    assert_eq!(r.clamp_to((100, 60)), r);
}

#[test]
fn translate_round_trip() {
    let r = Rect { x: 3, y: -4, w: 7, h: 9 };
    assert_eq!(r.translate(11, 12).translate(-11, -12), r);
}

#[test]
fn normalize_is_symmetric() {
    assert_eq!(Rect::normalize((3, 9), (-5, 2)), Rect::normalize((-5, 2), (3, 9)));
}

#[test]
fn resize_corner_anchors_move_two_edges() {
    let base = Rect { x: 10, y: 10, w: 20, h: 20 };
    assert_eq!(base.resize_from_anchor(Anchor::TR, 4, -2), Rect { x: 10, y: 8, w: 24, h: 22 });
    assert_eq!(base.resize_from_anchor(Anchor::BL, -3, 5), Rect { x: 7, y: 10, w: 23, h: 25 });
}

#[test]
fn as_tuple_u32_reads_negatives_as_zero() {
    assert_eq!(Rect { x: -1, y: 2, w: 3, h: -4 }.as_tuple_u32(), (0, 2, 3, 0));
}

#[test]
fn double_click_on_empty_rect_stays() {
    let r = Rect { x: 10, y: 10, w: 0, h: 20 };
    assert!(matches!(on_double_click_adjusting(r, (10, 15)), Transition::Stay));
}
