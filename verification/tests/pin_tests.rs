use quickshot::pin::{PinAction, PinEvent, PinGesture};

#[test]
fn pin_double_click_closes() {
    let mut g = PinGesture::new();
    assert_eq!(g.step(PinEvent::Pressed { now_ms: 1000, cursor: (5, 5) }), PinAction::Nothing);
    assert_eq!(g.step(PinEvent::Released), PinAction::Nothing);
    assert_eq!(g.step(PinEvent::Pressed { now_ms: 1399, cursor: (50, 60) }), PinAction::Close);
}

#[test]
fn pin_slow_second_click_does_not_close() {
    let mut g = PinGesture::new();
    g.step(PinEvent::Pressed { now_ms: 1000, cursor: (5, 5) });
    g.step(PinEvent::Released);
    assert_eq!(g.step(PinEvent::Pressed { now_ms: 1400, cursor: (5, 5) }), PinAction::Nothing);
}

#[test]
fn pin_drag_moves_by_cursor_offset() {
    let mut g = PinGesture::new();
    assert_eq!(g.step(PinEvent::Moved((10, 10))), PinAction::Nothing);
    g.step(PinEvent::Pressed { now_ms: 0, cursor: (10, 10) });
    assert_eq!(g.step(PinEvent::Moved((25, 4))), PinAction::MoveBy(15, -6));
    g.step(PinEvent::Released);
    assert_eq!(g.step(PinEvent::Moved((40, 40))), PinAction::Nothing);
}

#[test]
fn pin_drag_offset_does_not_overflow() {
    let mut g = PinGesture::new();
    g.step(PinEvent::Pressed { now_ms: 0, cursor: (i32::MIN, i32::MAX) });
    assert_eq!(
        g.step(PinEvent::Moved((i32::MAX, i32::MIN))),
        PinAction::MoveBy(u32::MAX as i64, -(u32::MAX as i64))
    );
}

#[test]
fn pin_close_request_closes() {
    let mut g = PinGesture::new();
    assert_eq!(g.step(PinEvent::CloseRequested), PinAction::Close);
}
