//! Pinned previews: floating windows showing a cropped capture. Drag one to
//! move it; double-click it to close it. The window itself lives at the
//! application's edge; this module decides what each pointer event does.

use vstd::prelude::*;

use crate::overlay::{elapsed, elapsed_ms, DOUBLE_CLICK_MS};

verus! {

/// What a pin window asks its owner to do after an event.
#[derive(Debug, Clone, Copy, PartialEq, Eq, Structural)]
pub enum PinOutcome {
    Continue,
    Closed,
}

/// The pointer state of a pin window.
#[derive(Debug, Clone, Copy)]
pub struct PinGesture {
    /// Where, inside the window, the left button went down for the drag in
    /// progress.
    pub press_pos: Option<(i32, i32)>,
    /// When the last left press came, in milliseconds of a monotonic clock.
    pub last_click: Option<u64>,
}

/// A pointer event on a pin window.
#[derive(Debug, Clone, Copy)]
pub enum PinEvent {
    /// The cursor is now at this position inside the window.
    Moved((i32, i32)),
    /// The left button went down at `now_ms`, the cursor at `cursor`.
    Pressed { now_ms: u64, cursor: (i32, i32) },
    /// The left button came up.
    Released,
    /// The window system asks the window to close.
    CloseRequested,
}

/// What the window should do after an event.
#[derive(Debug, Clone, Copy, PartialEq, Eq, Structural)]
pub enum PinAction {
    Nothing,
    /// Move the window by this many pixels, so the point grabbed stays
    /// under the cursor.
    MoveBy(i64, i64),
    Close,
}

/// A press closer than `DOUBLE_CLICK_MS` after the previous one.
pub open spec fn is_double_click(g: PinGesture, now_ms: u64) -> bool {
    g.last_click matches Some(t) && elapsed_ms(now_ms, t) < DOUBLE_CLICK_MS
}

/// The next pointer state and the action, for an event.
pub open spec fn spec_pin_step(g: PinGesture, e: PinEvent) -> (PinGesture, PinAction) {
    match e {
        PinEvent::Moved(c) => match g.press_pos {
            Some(p) => (g, PinAction::MoveBy((c.0 - p.0) as i64, (c.1 - p.1) as i64)),
            None => (g, PinAction::Nothing),
        },
        PinEvent::Pressed { now_ms, cursor } => if is_double_click(g, now_ms) {
            (PinGesture { last_click: Some(now_ms), ..g }, PinAction::Close)
        } else {
            (PinGesture { press_pos: Some(cursor), last_click: Some(now_ms) }, PinAction::Nothing)
        },
        PinEvent::Released => (PinGesture { press_pos: None, ..g }, PinAction::Nothing),
        PinEvent::CloseRequested => (g, PinAction::Close),
    }
}

impl PinGesture {
    /// No drag in progress and no press seen yet.
    pub fn new() -> (g: PinGesture)
        ensures
            g.press_pos is None,
            g.last_click is None,
    {
        PinGesture { press_pos: None, last_click: None }
    }

    /// Take a pointer event: follow a drag, close on a double click or when
    /// the window system asks.
    pub fn step(&mut self, e: PinEvent) -> (a: PinAction)
        ensures
            (*final(self), a) == spec_pin_step(*old(self), e),
    {
        match e {
            PinEvent::Moved(c) => match self.press_pos {
                Some(p) => PinAction::MoveBy(c.0 as i64 - p.0 as i64, c.1 as i64 - p.1 as i64),
                None => PinAction::Nothing,
            },
            PinEvent::Pressed { now_ms, cursor } => {
                let double = match self.last_click {
                    Some(t) => elapsed(now_ms, t) < DOUBLE_CLICK_MS,
                    None => false,
                };
                self.last_click = Some(now_ms);
                if double {
                    PinAction::Close
                } else {
                    self.press_pos = Some(cursor);
                    PinAction::Nothing
                }
            },
            PinEvent::Released => {
                self.press_pos = None;
                PinAction::Nothing
            },
            PinEvent::CloseRequested => PinAction::Close,
        }
    }
}

/// Two presses less than `DOUBLE_CLICK_MS` apart close the pin, wherever
/// they land and whatever came before.
pub proof fn lemma_pin_double_click_closes(
    g: PinGesture,
    first_ms: u64,
    first: (i32, i32),
    second_ms: u64,
    second: (i32, i32),
)
    requires
        first_ms <= second_ms < first_ms + DOUBLE_CLICK_MS,
    ensures
        spec_pin_step(
            spec_pin_step(g, PinEvent::Pressed { now_ms: first_ms, cursor: first }).0,
            PinEvent::Pressed { now_ms: second_ms, cursor: second },
        ).1 == PinAction::Close,
{
}

/// While the button is held after a press at `grab`, moving the cursor to
/// `to` moves the window by the cursor's offset from `grab`.
pub proof fn lemma_pin_drag_follows_cursor(g: PinGesture, now_ms: u64, grab: (i32, i32), to: (i32, i32))
    requires
        !is_double_click(g, now_ms),
    ensures
        spec_pin_step(
            spec_pin_step(g, PinEvent::Pressed { now_ms, cursor: grab }).0,
            PinEvent::Moved(to),
        ).1 == PinAction::MoveBy((to.0 - grab.0) as i64, (to.1 - grab.1) as i64),
{
}

/// After the button comes up, moving the cursor moves nothing.
pub proof fn lemma_pin_release_ends_drag(g: PinGesture, to: (i32, i32))
    ensures
        spec_pin_step(spec_pin_step(g, PinEvent::Released).0, PinEvent::Moved(to)).1
            == PinAction::Nothing,
{
}

} // verus!
