use quickshot::overlay::annotate::{Annotation, AnnotationStyle, Color, History, Stroke, Tool};
use quickshot::overlay::state::{OverlayState, Rect};
use quickshot::overlay::{
    key_to_color, KeyInput, Modifiers, Outcome, Overlay, OverlayEvent, TextEdit,
};

#[test]
fn key_to_color_mapping() {
    assert_eq!(key_to_color('1'), Some(Color::Red));
    assert_eq!(key_to_color('2'), Some(Color::Yellow));
    assert_eq!(key_to_color('3'), Some(Color::Green));
    assert_eq!(key_to_color('4'), Some(Color::Blue));
    assert_eq!(key_to_color('5'), None);
    assert_eq!(key_to_color('a'), None);
}

#[test]
fn text_edit_appends_printable() {
    let mut t = TextEdit::new((10, 10), 0);
    t.handle_char('h');
    t.handle_char('i');
    assert_eq!(t.buffer, "hi");
}

#[test]
fn text_edit_backspace() {
    let mut t = TextEdit::new((0, 0), 0);
    t.buffer.push_str("abc");
    assert!(t.backspace());
    assert_eq!(t.buffer, "ab");
    t.buffer.clear();
    assert!(!t.backspace());
}

#[test]
fn text_edit_newline() {
    let mut t = TextEdit::new((0, 0), 0);
    t.handle_char('a');
    t.handle_char('\n');
    t.handle_char('b');
    assert_eq!(t.buffer, "a\nb");
}

#[test]
fn text_edit_can_be_committed_via_helper() {
    // The commit pattern keeps the buffer as a history entry.
    let mut h = History::new();
    let style = AnnotationStyle::default();
    let t = TextEdit {
        origin_frame: (5, 7),
        buffer: "wow".to_string(),
        preedit: String::new(),
        last_blink: 0,
        cursor_visible: true,
    };
    if !t.buffer.is_empty() {
        h.push(Annotation::Text { origin: t.origin_frame, content: t.buffer, style });
    }
    assert_eq!(h.current().len(), 1);
}

#[test]
fn text_edit_ignores_control_chars() {
    let mut t = TextEdit::new((0, 0), 0);
    assert!(!t.handle_char('\u{7}'));
    assert!(t.handle_char('x'));
    assert_eq!(t.buffer, "x");
}

#[test]
fn text_edit_caret_blinks_after_interval() {
    let mut t = TextEdit::new((0, 0), 1000);
    t.tick_blink(1100);
    assert!(t.cursor_visible);
    t.tick_blink(1530);
    assert!(!t.cursor_visible);
    assert_eq!(t.last_blink, 1530);
}

#[test]
fn text_edit_display_appends_preedit() {
    let mut t = TextEdit::new((0, 0), 0);
    t.handle_str("ab");
    t.preedit = "c".to_string();
    assert_eq!(t.display_text(), "abc|");
    t.cursor_visible = false;
    assert_eq!(t.display_text(), "abc");
}

fn key(s: &str) -> OverlayEvent {
    OverlayEvent::KeyPressed(KeyInput::Character(s.to_string()))
}

fn overlay() -> Overlay {
    Overlay::new((800, 600), (1600, 1200), Vec::new())
}

/// Press at (x0, y0), drag to (x1, y1), release.
fn drag(o: &mut Overlay, x0: i32, y0: i32, x1: i32, y1: i32, t: u64) {
    o.handle_event(OverlayEvent::CursorMoved { x: x0, y: y0, now_ms: t });
    o.handle_event(OverlayEvent::LeftPressed { now_ms: t });
    o.handle_event(OverlayEvent::CursorMoved { x: x1, y: y1, now_ms: t + 20 });
    o.handle_event(OverlayEvent::LeftReleased);
}

#[test]
fn overlay_drag_then_release_adjusts_the_dragged_rect() {
    let mut o = overlay();
    drag(&mut o, 100, 80, 40, 20, 0);
    assert_eq!(
        o.state,
        OverlayState::Adjusting { rect: Rect { x: 40, y: 20, w: 60, h: 60 }, edit: None }
    );
    assert_eq!(o.current_selection_rect(), Some(Rect { x: 40, y: 20, w: 60, h: 60 }));
}

#[test]
fn overlay_small_motion_is_a_click_not_a_drag() {
    let mut o = overlay();
    o.handle_event(OverlayEvent::CursorMoved { x: 10, y: 10, now_ms: 0 });
    o.handle_event(OverlayEvent::LeftPressed { now_ms: 0 });
    o.handle_event(OverlayEvent::CursorMoved { x: 11, y: 12, now_ms: 5 });
    o.handle_event(OverlayEvent::LeftReleased);
    assert_eq!(o.state, OverlayState::Idle);
}

#[test]
fn overlay_enter_confirms_and_escape_cancels() {
    let mut o = overlay();
    drag(&mut o, 10, 10, 110, 60, 0);
    let r = o.handle_event(OverlayEvent::KeyPressed(KeyInput::Enter));
    assert_eq!(r.outcome, Outcome::Confirmed(Rect { x: 10, y: 10, w: 100, h: 50 }));
    let r = o.handle_event(OverlayEvent::KeyPressed(KeyInput::Escape));
    assert_eq!(r.outcome, Outcome::Cancelled);
}

#[test]
fn overlay_double_click_inside_confirms() {
    let mut o = overlay();
    drag(&mut o, 10, 10, 110, 60, 0);
    o.handle_event(OverlayEvent::CursorMoved { x: 50, y: 30, now_ms: 1000 });
    o.handle_event(OverlayEvent::LeftPressed { now_ms: 1000 });
    o.handle_event(OverlayEvent::LeftReleased);
    let r = o.handle_event(OverlayEvent::LeftPressed { now_ms: 1200 });
    assert_eq!(r.outcome, Outcome::Confirmed(Rect { x: 10, y: 10, w: 100, h: 50 }));
}

#[test]
fn overlay_window_points_scale_to_frame_pixels() {
    let o = overlay();
    assert_eq!(o.window_point_to_frame_point((10, 7)), (20, 14));
    assert_eq!(o.window_point_to_frame_point((-3, 0)), (-6, 0));
}

#[test]
fn overlay_draws_a_rect_and_undo_redo_keys_toggle_it() {
    let mut o = overlay();
    drag(&mut o, 10, 10, 210, 210, 0);
    o.handle_event(key("r"));
    assert_eq!(o.tool, Tool::Rect);
    drag(&mut o, 50, 50, 100, 80, 5000);
    assert_eq!(o.history.current().len(), 1);
    match &o.history.current()[0] {
        Annotation::Rect { rect, style } => {
            assert_eq!(*rect, Rect { x: 100, y: 100, w: 100, h: 60 });
            assert_eq!(style.color, Color::Red);
        }
        _ => panic!("expected a rect"),
    }
    o.handle_event(OverlayEvent::ModifiersChanged(Modifiers { shift: false, super_key: true, ctrl: false }));
    o.handle_event(key("z"));
    assert_eq!(o.history.current().len(), 0);
    o.handle_event(OverlayEvent::ModifiersChanged(Modifiers { shift: true, super_key: true, ctrl: false }));
    o.handle_event(key("Z"));
    assert_eq!(o.history.current().len(), 1);
}

#[test]
fn overlay_color_and_stroke_shortcuts() {
    let mut o = overlay();
    drag(&mut o, 10, 10, 210, 210, 0);
    o.handle_event(key("3"));
    o.handle_event(key("]"));
    assert_eq!(o.current_style.color, Color::Green);
    assert_eq!(o.current_style.stroke, Stroke::Thick);
    o.handle_event(key("["));
    o.handle_event(key("["));
    assert_eq!(o.current_style.stroke, Stroke::Thin);
}

#[test]
fn overlay_text_tool_types_and_enter_commits() {
    let mut o = overlay();
    drag(&mut o, 10, 10, 210, 210, 0);
    o.handle_event(key("t"));
    o.handle_event(OverlayEvent::CursorMoved { x: 50, y: 60, now_ms: 5000 });
    o.handle_event(OverlayEvent::LeftPressed { now_ms: 5000 });
    o.handle_event(OverlayEvent::LeftReleased);
    o.handle_event(key("h"));
    o.handle_event(key("i"));
    o.handle_event(OverlayEvent::KeyPressed(KeyInput::Enter));
    assert!(o.text_edit.is_none());
    assert_eq!(o.history.current().len(), 1);
    match &o.history.current()[0] {
        Annotation::Text { origin, content, .. } => {
            assert_eq!(*origin, (100, 120));
            assert_eq!(content, "hi");
        }
        _ => panic!("expected text"),
    }
}

#[test]
fn overlay_escape_hides_hints_before_cancelling() {
    let mut o = overlay();
    drag(&mut o, 10, 10, 210, 210, 0);
    o.handle_event(key("h"));
    assert!(o.show_hints);
    let r = o.handle_event(OverlayEvent::KeyPressed(KeyInput::Escape));
    assert_eq!(r.outcome, Outcome::Continue);
    assert!(!o.show_hints);
}

#[test]
fn overlay_redraw_plan_follows_the_state() {
    let mut o = overlay();
    let p = o.redraw_plan();
    assert!(p.selection.is_none() && p.show_magnifier && !p.show_toolbar);
    assert!(o.redraw_toolbar().is_none());
    drag(&mut o, 10, 10, 110, 60, 0);
    let p = o.redraw_plan();
    assert_eq!(p.selection, Some(Rect { x: 10, y: 10, w: 100, h: 50 }));
    assert!(p.show_toolbar && p.show_anchors && p.show_label && !p.show_magnifier);
    let tb = o.redraw_toolbar().unwrap();
    assert_eq!(tb.tool_buttons.len(), 7);
    assert!(tb.origin.1 > 60);
}

#[test]
fn overlay_escape_while_typing_discards_text_only() {
    let mut o = overlay();
    drag(&mut o, 10, 10, 210, 210, 0);
    o.handle_event(key("t"));
    o.handle_event(OverlayEvent::CursorMoved { x: 50, y: 60, now_ms: 5000 });
    o.handle_event(OverlayEvent::LeftPressed { now_ms: 5000 });
    o.handle_event(OverlayEvent::LeftReleased);
    o.handle_event(key("x"));
    let r = o.handle_event(OverlayEvent::KeyPressed(KeyInput::Escape));
    assert_eq!(r.outcome, Outcome::Continue);
    assert!(o.text_edit.is_none());
    assert_eq!(o.history.current().len(), 0);
    assert!(matches!(o.state, OverlayState::Adjusting { .. }));
}

#[test]
fn overlay_click_only_hides_hints() {
    let mut o = overlay();
    drag(&mut o, 10, 10, 210, 210, 0);
    o.handle_event(key("h"));
    o.handle_event(OverlayEvent::CursorMoved { x: 50, y: 50, now_ms: 5000 });
    let r = o.handle_event(OverlayEvent::LeftPressed { now_ms: 5000 });
    assert_eq!(r.outcome, Outcome::Continue);
    assert!(!o.show_hints);
    assert_eq!(o.state, OverlayState::Adjusting { rect: Rect { x: 10, y: 10, w: 200, h: 200 }, edit: None });
}

#[test]
fn overlay_escape_gets_out_within_three_presses() {
    let mut o = overlay();
    drag(&mut o, 10, 10, 210, 210, 0);
    o.handle_event(key("t"));
    o.handle_event(OverlayEvent::CursorMoved { x: 50, y: 60, now_ms: 5000 });
    o.handle_event(OverlayEvent::LeftPressed { now_ms: 5000 });
    o.handle_event(OverlayEvent::LeftReleased);
    o.handle_event(key("x"));
    o.show_hints = true;
    let esc = || OverlayEvent::KeyPressed(KeyInput::Escape);
    assert_eq!(o.handle_event(esc()).outcome, Outcome::Continue);
    assert!(o.text_edit.is_none() && o.show_hints);
    assert_eq!(o.handle_event(esc()).outcome, Outcome::Continue);
    assert!(!o.show_hints);
    assert_eq!(o.handle_event(esc()).outcome, Outcome::Cancelled);
}

#[test]
fn overlay_ctrl_z_undoes_and_ctrl_shift_z_redoes() {
    let mut o = overlay();
    drag(&mut o, 10, 10, 210, 210, 0);
    o.handle_event(key("r"));
    drag(&mut o, 50, 50, 100, 80, 5000);
    assert_eq!(o.history.current().len(), 1);
    o.handle_event(OverlayEvent::ModifiersChanged(Modifiers { shift: false, super_key: false, ctrl: true }));
    o.handle_event(key("z"));
    assert_eq!(o.history.current().len(), 0);
    o.handle_event(OverlayEvent::ModifiersChanged(Modifiers { shift: true, super_key: false, ctrl: true }));
    o.handle_event(key("Z"));
    assert_eq!(o.history.current().len(), 1);
}

#[test]
fn overlay_takes_windows_and_frames_of_any_size() {
    let mut o = Overlay::new((40000, 30000), (4_000_000_000, 90000), Vec::new());
    drag(&mut o, 100, 100, 39000, 29000, 0);
    assert_eq!(o.state, OverlayState::Adjusting { rect: Rect { x: 100, y: 100, w: 38900, h: 28900 }, edit: None });
    assert_eq!(o.window_point_to_frame_point((39000, 29000)), (
        (39000i64 * 4_000_000_000 / 40000) as i32,
        87000,
    ));
    o.handle_event(OverlayEvent::Resized { width: 100_000, height: 70_000 });
    assert_eq!(o.window_size, (100_000, 70_000));
}

#[test]
fn overlay_refuses_events_that_overflow() {
    let o = overlay();
    assert!(o.can_handle(&OverlayEvent::Resized { width: 5000, height: 5000 }));
    assert!(!o.can_handle(&OverlayEvent::Resized { width: 3_000_000_000, height: 10 }));
    assert!(o.can_handle(&OverlayEvent::LeftReleased));
}

#[test]
fn overlay_refuses_a_shape_whose_frame_corners_are_too_far_apart() {
    let mut o = Overlay::new((300, 300), (u32::MAX, u32::MAX), Vec::new());
    drag(&mut o, 0, 0, 299, 299, 0);
    o.handle_event(key("r"));
    o.handle_event(OverlayEvent::CursorMoved { x: 100, y: 100, now_ms: 5000 });
    o.handle_event(OverlayEvent::LeftPressed { now_ms: 5000 });
    assert!(o.pending_draw.is_some());
    o.handle_event(OverlayEvent::CursorMoved { x: 200, y: 200, now_ms: 5100 });
    assert!(!o.can_handle(&OverlayEvent::LeftReleased));
    o.handle_event(OverlayEvent::CursorMoved { x: 120, y: 120, now_ms: 5200 });
    assert!(o.can_handle(&OverlayEvent::LeftReleased));
}
