//! The region-capture overlay: selection state, hit testing, annotations,
//! toolbar layout, compositing, and the interaction state machine that ties
//! them together. The window system feeds events in as plain values and
//! performs the redraws and cursor changes the machine asks for.

pub mod annotate;
pub mod annotate_render;
pub mod help_panel;
pub mod hit;
pub mod render;
pub mod snap;
pub mod state;
pub mod toolbar;

use vstd::prelude::*;

use crate::strings::{ascii_lower, pop_char, push_char, to_ascii_lowercase};
use self::annotate::{
    AnnotationStyle, AnnotationView, Color, History, PendingDraw, PendingView, Tool, history_model,
    history_push, history_redo, history_undo, lemma_model_push, lemma_model_redo, lemma_model_undo,
    pending_extend, pending_finalize, stroke_down, stroke_up,
};
use self::annotate::{Annotation};
use self::hit::{
    CursorShape, HitZone, all_anchors, classify, classify_fits, cursor_icon_for, spec_anchor_center,
    spec_classify, spec_cursor_icon_for,
};
use self::snap::{WindowEntry, drag_threshold_exceeded, entries_fit, manhattan, spec_window_under_cursor, window_under_cursor};
use self::state::{
    Anchor, Edit, OverlayState, Rect, Transition, as_i32, clamp, clamp_i32, commit_edit, on_double_click_adjusting,
    on_enter, on_mouse_move_dragging, point_ok, rect_ok, spec_commit_edit, spec_on_enter,
    spec_update_edit, start_resize, start_translate, state_ok, update_edit, CURSOR_LIMIT,
};
use self::toolbar::{Toolbar, ToolbarHit, BAR_H, BAR_W, is_layout, layout_fits, layout_hit, lemma_layout_badges_fit, lemma_layout_hit, spec_tool_hint};

verus! {

/// Two presses closer together than this are a double click.
pub const DOUBLE_CLICK_MS: u64 = 400;

/// Cursor-driven redraws are requested at most this often.
pub const REDRAW_INTERVAL_MS: u64 = 16;

/// Half period of the text caret's blink.
pub const CARET_BLINK_MS: u64 = 530;

/// Milliseconds from `earlier` to `now`; zero when `now` is not later.
pub open spec fn elapsed_ms(now: u64, earlier: u64) -> int {
    if now >= earlier { now - earlier } else { 0 }
}

pub(crate) fn elapsed(now: u64, earlier: u64) -> (d: u64)
    ensures
        d == elapsed_ms(now, earlier),
{
    if now >= earlier { now - earlier } else { 0 }
}

/// What the overlay asks its owner to do after an event.
#[derive(Debug, Clone, Copy, PartialEq, Eq, Structural)]
pub enum Outcome {
    Continue,
    Confirmed(state::Rect),
    Pinned(state::Rect),
    SaveAs(state::Rect),
    Cancelled,
}

/// Unicode control characters (general category Cc).
pub open spec fn is_control_char(c: char) -> bool {
    (c as u32) <= 0x1f || (0x7f <= (c as u32) && (c as u32) <= 0x9f)
}

fn is_control(c: char) -> (b: bool)
    ensures
        b == is_control_char(c),
{
    let v = c as u32;
    v <= 0x1f || (0x7f <= v && v <= 0x9f)
}

/// Characters the text editor takes: everything but control characters,
/// except the newline.
pub open spec fn text_accepts(c: char) -> bool {
    !is_control_char(c) || c == '\n'
}

/// An in-progress text annotation.
pub struct TextEdit {
    pub origin_frame: (i32, i32),
    pub buffer: String,
    /// The input method's in-flight composition, shown after `buffer`.
    pub preedit: String,
    /// Clock reading (ms) of the caret's last blink.
    pub last_blink: u64,
    pub cursor_visible: bool,
}

#[verifier::ext_equal]
pub struct TextEditView {
    pub origin_frame: (i32, i32),
    pub buffer: Seq<char>,
    pub preedit: Seq<char>,
    pub last_blink: u64,
    pub cursor_visible: bool,
}

impl View for TextEdit {
    type V = TextEditView;

    open spec fn view(&self) -> TextEditView {
        TextEditView {
            origin_frame: self.origin_frame,
            buffer: self.buffer@,
            preedit: self.preedit@,
            last_blink: self.last_blink,
            cursor_visible: self.cursor_visible,
        }
    }
}

/// The editor after typing `c`.
pub open spec fn text_typed(t: TextEditView, c: char) -> TextEditView {
    if text_accepts(c) {
        TextEditView { buffer: t.buffer.push(c), ..t }
    } else {
        t
    }
}

/// The editor after typing each character of `s` in turn.
pub open spec fn text_typed_all(t: TextEditView, s: Seq<char>) -> TextEditView
    decreases s.len(),
{
    if s.len() == 0 {
        t
    } else {
        text_typed(text_typed_all(t, s.drop_last()), s.last())
    }
}

/// The editor after a backspace: the last character goes, if any.
pub open spec fn text_backspaced(t: TextEditView) -> TextEditView {
    if t.buffer.len() > 0 {
        TextEditView { buffer: t.buffer.drop_last(), ..t }
    } else {
        t
    }
}

/// The caret after a blink tick at `now`.
pub open spec fn text_ticked(t: TextEditView, now: u64) -> TextEditView {
    if elapsed_ms(now, t.last_blink) >= CARET_BLINK_MS {
        TextEditView { cursor_visible: !t.cursor_visible, last_blink: now, ..t }
    } else {
        t
    }
}

impl TextEdit {
    /// An empty editor anchored at `origin_frame`, caret shown, blink clock
    /// started at `now_ms`.
    pub fn new(origin_frame: (i32, i32), now_ms: u64) -> (t: Self)
        ensures
            t@ == (TextEditView {
                origin_frame,
                buffer: Seq::empty(),
                preedit: Seq::empty(),
                last_blink: now_ms,
                cursor_visible: true,
            }),
    {
        Self {
            origin_frame,
            buffer: String::new(),
            preedit: String::new(),
            last_blink: now_ms,
            cursor_visible: true,
        }
    }

    /// Append a character unless it is a control character other than the
    /// newline. Returns whether the buffer changed.
    pub fn handle_char(&mut self, ch: char) -> (changed: bool)
        ensures
            changed == text_accepts(ch),
            final(self)@ == text_typed(old(self)@, ch),
    {
        if is_control(ch) && ch != '\n' {
            return false;
        }
        push_char(&mut self.buffer, ch);
        true
    }

    /// Remove the last character. Returns whether there was one.
    pub fn backspace(&mut self) -> (changed: bool)
        ensures
            changed == (old(self)@.buffer.len() > 0),
            final(self)@ == text_backspaced(old(self)@),
    {
        pop_char(&mut self.buffer).is_some()
    }

    /// Type every character of `s`.
    pub fn handle_str(&mut self, s: &str)
        ensures
            final(self)@ == text_typed_all(old(self)@, s@),
    {
        let n = s.unicode_len();
        let mut i: usize = 0;
        while i < n
            invariant
                n == s@.len(),
                0 <= i <= n,
                self@ == text_typed_all(old(self)@, s@.subrange(0, i as int)),
            decreases n - i,
        {
            let c = s.get_char(i);
            self.handle_char(c);
            assert(s@.subrange(0, i + 1).drop_last() =~= s@.subrange(0, i as int));
            i = i + 1;
        }
        assert(s@.subrange(0, n as int) =~= s@);
    }

    /// Toggle the caret once `CARET_BLINK_MS` have passed since the last
    /// toggle.
    pub fn tick_blink(&mut self, now_ms: u64)
        ensures
            final(self)@ == text_ticked(old(self)@, now_ms),
    {
        if elapsed(now_ms, self.last_blink) >= CARET_BLINK_MS {
            self.cursor_visible = !self.cursor_visible;
            self.last_blink = now_ms;
        }
    }

    /// What is drawn: the buffer, the composition, and the caret when it is
    /// visible.
    pub fn display_text(&self) -> (s: String)
        ensures
            s@ == self@.buffer + self@.preedit + if self.cursor_visible {
                seq!['|']
            } else {
                Seq::empty()
            },
    {
        let mut s = self.buffer.clone();
        s.append(self.preedit.as_str());
        if self.cursor_visible {
            push_char(&mut s, '|');
        }
        s
    }
}

pub open spec fn spec_key_to_color(c: char) -> Option<Color> {
    if c == '1' {
        Some(Color::Red)
    } else if c == '2' {
        Some(Color::Yellow)
    } else if c == '3' {
        Some(Color::Green)
    } else if c == '4' {
        Some(Color::Blue)
    } else {
        None
    }
}

/// Digit keys 1 to 4 pick the red, yellow, green and blue swatches.
pub fn key_to_color(c: char) -> (r: Option<Color>)
    ensures
        r == spec_key_to_color(c),
{
    match c {
        '1' => Some(Color::Red),
        '2' => Some(Color::Yellow),
        '3' => Some(Color::Green),
        '4' => Some(Color::Blue),
        _ => None,
    }
}


/// Held modifier keys.
#[derive(Debug, Clone, Copy, PartialEq, Eq, Structural)]
pub struct Modifiers {
    pub shift: bool,
    /// Command on macOS, the Windows/Super key elsewhere.
    pub super_key: bool,
    /// Control: with Z it undoes and redoes as Command does.
    pub ctrl: bool,
}

/// A key press, as far as the overlay distinguishes keys.
pub enum KeyInput {
    /// A key that produces text; the text it produces.
    Character(String),
    Enter,
    Escape,
    Backspace,
    Other,
}

pub enum KeyView {
    Character(Seq<char>),
    Enter,
    Escape,
    Backspace,
    Other,
}

impl View for KeyInput {
    type V = KeyView;

    open spec fn view(&self) -> KeyView {
        match self {
            KeyInput::Character(s) => KeyView::Character(s@),
            KeyInput::Enter => KeyView::Enter,
            KeyInput::Escape => KeyView::Escape,
            KeyInput::Backspace => KeyView::Backspace,
            KeyInput::Other => KeyView::Other,
        }
    }
}

/// A window-system event, with the clock reading (ms) where timing matters.
pub enum OverlayEvent {
    CursorMoved { x: i32, y: i32, now_ms: u64 },
    LeftPressed { now_ms: u64 },
    LeftReleased,
    /// A key going down (repeats excluded).
    KeyPressed(KeyInput),
    ModifiersChanged(Modifiers),
    /// The input method committed text.
    ImeCommit(String),
    /// The input method's composition changed.
    ImePreedit(String),
    CursorLeft,
    Resized { width: u32, height: u32 },
    CloseRequested,
    Other,
}

pub enum EventView {
    CursorMoved { x: i32, y: i32, now_ms: u64 },
    LeftPressed { now_ms: u64 },
    LeftReleased,
    KeyPressed(KeyView),
    ModifiersChanged(Modifiers),
    ImeCommit(Seq<char>),
    ImePreedit(Seq<char>),
    CursorLeft,
    Resized { width: u32, height: u32 },
    CloseRequested,
    Other,
}

impl View for OverlayEvent {
    type V = EventView;

    open spec fn view(&self) -> EventView {
        match self {
            OverlayEvent::CursorMoved { x, y, now_ms } => EventView::CursorMoved {
                x: *x,
                y: *y,
                now_ms: *now_ms,
            },
            OverlayEvent::LeftPressed { now_ms } => EventView::LeftPressed { now_ms: *now_ms },
            OverlayEvent::LeftReleased => EventView::LeftReleased,
            OverlayEvent::KeyPressed(k) => EventView::KeyPressed(k@),
            OverlayEvent::ModifiersChanged(m) => EventView::ModifiersChanged(*m),
            OverlayEvent::ImeCommit(s) => EventView::ImeCommit(s@),
            OverlayEvent::ImePreedit(s) => EventView::ImePreedit(s@),
            OverlayEvent::CursorLeft => EventView::CursorLeft,
            OverlayEvent::Resized { width, height } => EventView::Resized {
                width: *width,
                height: *height,
            },
            OverlayEvent::CloseRequested => EventView::CloseRequested,
            OverlayEvent::Other => EventView::Other,
        }
    }
}

/// The overlay's answer to an event: the outcome for its owner, whether to
/// redraw, and a new cursor shape, if any.
#[derive(Debug, Clone, Copy, PartialEq, Eq)]
pub struct Response {
    pub outcome: Outcome,
    pub redraw: bool,
    pub cursor_icon: Option<CursorShape>,
}

pub open spec fn respond(outcome: Outcome, redraw: bool) -> Response {
    Response { outcome, redraw, cursor_icon: None }
}

/// The interaction state of one capture overlay.
pub struct Overlay {
    pub state: OverlayState,
    pub cursor: (i32, i32),
    /// Clock reading of the last left press.
    pub last_click: Option<u64>,
    /// Clock reading of the last cursor-driven redraw request.
    pub last_redraw: Option<u64>,
    pub tool: Tool,
    pub history: History,
    pub pending_draw: Option<PendingDraw>,
    pub current_style: AnnotationStyle,
    pub text_edit: Option<TextEdit>,
    pub modifiers: Modifiers,
    /// Whether the toolbar's shortcut badges are shown.
    pub show_hints: bool,
    /// The window under the hovering cursor, previewed as a selection.
    pub snap_target: Option<Rect>,
    /// Where the left button went down in Idle, until it is released or the
    /// press turns into a drag.
    pub press_pos: Option<(i32, i32)>,
    /// The snap target when the left button went down.
    pub snap_at_press: Option<Rect>,
    /// On-screen windows, front to back, in window coordinates.
    pub window_list: Vec<WindowEntry>,
    pub window_size: (u32, u32),
    /// Pixel size of the captured frame.
    pub frame_size: (u32, u32),
}

#[verifier::ext_equal]
pub struct OverlayView {
    pub state: OverlayState,
    pub cursor: (i32, i32),
    pub last_click: Option<u64>,
    pub last_redraw: Option<u64>,
    pub tool: Tool,
    pub history: (Seq<AnnotationView>, Seq<AnnotationView>),
    pub pending: Option<PendingView>,
    pub style: AnnotationStyle,
    pub text: Option<TextEditView>,
    pub modifiers: Modifiers,
    pub show_hints: bool,
    pub snap_target: Option<Rect>,
    pub press_pos: Option<(i32, i32)>,
    pub snap_at_press: Option<Rect>,
    pub windows: Seq<WindowEntry>,
    pub window_size: (u32, u32),
    pub frame_size: (u32, u32),
}

pub open spec fn option_pending_view(d: Option<PendingDraw>) -> Option<PendingView> {
    match d {
        Some(d) => Some(d@),
        None => None,
    }
}

pub open spec fn option_text_view(t: Option<TextEdit>) -> Option<TextEditView> {
    match t {
        Some(t) => Some(t@),
        None => None,
    }
}

impl View for Overlay {
    type V = OverlayView;

    open spec fn view(&self) -> OverlayView {
        OverlayView {
            state: self.state,
            cursor: self.cursor,
            last_click: self.last_click,
            last_redraw: self.last_redraw,
            tool: self.tool,
            history: history_model(self.history@),
            pending: option_pending_view(self.pending_draw),
            style: self.current_style,
            text: option_text_view(self.text_edit),
            modifiers: self.modifiers,
            show_hints: self.show_hints,
            snap_target: self.snap_target,
            press_pos: self.press_pos,
            snap_at_press: self.snap_at_press,
            windows: self.window_list@,
            window_size: self.window_size,
            frame_size: self.frame_size,
        }
    }
}

/// Finishing the drawing in flight cannot overflow: a rectangle, ellipse or
/// mosaic has corner differences that an `i32` holds.
pub open spec fn pending_fits(d: PendingView) -> bool {
    match d {
        PendingView::Shape { tool, from_frame, to_frame, .. } => (tool == Tool::Rect || tool
            == Tool::Ellipse || tool == Tool::Mosaic) ==> Rect::normalize_fits(from_frame, to_frame),
        PendingView::Pen { .. } => true,
    }
}

/// The window size can be read as an `i32`: selections are clamped into
/// `[0, size]` with the size read so, which a size above `i32::MAX` turns
/// negative and would make the clamp's bounds cross.
pub open spec fn window_fits(ws: (u32, u32)) -> bool {
    ws.0 <= i32::MAX && ws.1 <= i32::MAX
}
/// The event can be handled without an `i32` overflow: a release that
/// finishes a shape needs its corner differences to fit, and a resize needs
/// a size the toolbar placement can read.
pub open spec fn event_fits(v: OverlayView, e: EventView) -> bool {
    match e {
        EventView::LeftReleased => v.pending matches Some(d) ==> pending_fits(d),
        EventView::Resized { width, height } => window_fits((width, height)),
        _ => true,
    }
}

pub open spec fn option_rect_ok(r: Option<Rect>) -> bool {
    match r {
        Some(r) => rect_ok(r),
        None => true,
    }
}

/// The overlay's state can be worked on in `i32`: the window size reads as
/// an `i32`, and the cursor and every selection and window rectangle lie
/// within `CURSOR_LIMIT` and `RECT_LIMIT` (2^28) of the window origin.
pub open spec fn overlay_ok(v: OverlayView) -> bool {
    &&& window_fits(v.window_size)
    &&& point_ok(v.cursor)
    &&& state_ok(v.state)
    &&& option_rect_ok(v.snap_target)
    &&& option_rect_ok(v.snap_at_press)
    &&& (v.press_pos matches Some(p) ==> point_ok(p))
    &&& forall|i: int| 0 <= i < v.windows.len() ==> rect_ok(#[trigger] v.windows[i].bounds)
}

/// `p * f / w` rounded toward zero, with a zero `w` read as one.
pub open spec fn scale_toward_zero(p: int, f: int, w: int) -> int {
    let w1 = if w == 0 { 1 } else { w };
    if p >= 0 { p * f / w1 } else { -((-p) * f / w1) }
}

/// A window point in frame pixels: `p * frame / window` (a window size of
/// zero read as one) rounded toward zero, then truncated to `i32`.
pub open spec fn spec_frame_point(window_size: (u32, u32), frame_size: (u32, u32), p: (i32, i32)) -> (i32, i32) {
    (
        scale_toward_zero(p.0 as int, frame_size.0 as int, window_size.0 as int) as i32,
        scale_toward_zero(p.1 as int, frame_size.1 as int, window_size.1 as int) as i32,
    )
}

pub open spec fn clamp_point(p: (i32, i32)) -> (i32, i32) {
    (clamp(p.0 as int, -CURSOR_LIMIT, CURSOR_LIMIT as int) as i32, clamp(p.1 as int, -CURSOR_LIMIT, CURSOR_LIMIT as int) as i32)
}

/// Request a redraw unless one was requested less than
/// `REDRAW_INTERVAL_MS` ago.
pub open spec fn throttle(v: OverlayView, now: u64) -> (OverlayView, bool) {
    if v.last_redraw is None || elapsed_ms(now, v.last_redraw->0) >= REDRAW_INTERVAL_MS {
        (OverlayView { last_redraw: Some(now), ..v }, true)
    } else {
        (v, false)
    }
}

/// Close the text editor, keeping its text as an annotation when it is not
/// empty.
pub open spec fn commit_text(v: OverlayView) -> OverlayView {
    match v.text {
        Some(t) => if t.buffer.len() > 0 {
            OverlayView {
                text: None,
                history: history_push(
                    v.history,
                    AnnotationView::Text { origin: t.origin_frame, content: t.buffer, style: v.style },
                ),
                ..v
            }
        } else {
            OverlayView { text: None, ..v }
        },
        None => v,
    }
}

/// Cursor motion over an Idle overlay: a held press turns into a drag once
/// the cursor is 4 px away; otherwise the hovered window becomes the snap
/// target.
pub open spec fn moved_idle(v: OverlayView, c: (i32, i32), now: u64) -> (OverlayView, Response) {
    match v.press_pos {
        Some(start) => if manhattan(start, c) >= 4 {
            (
                OverlayView {
                    state: OverlayState::Dragging { start, end: c },
                    snap_target: None,
                    press_pos: None,
                    snap_at_press: None,
                    ..v
                },
                respond(Outcome::Continue, true),
            )
        } else {
            (v, respond(Outcome::Continue, false))
        },
        None => {
            let t = spec_window_under_cursor(c, v.windows);
            let (v3, r) = throttle(OverlayView { snap_target: t, ..v }, now);
            (v3, respond(Outcome::Continue, r || t != v.snap_target))
        },
    }
}

/// Cursor motion with no drawing in flight: the drag end, the edit, the
/// cursor shape, or the Idle handling follow the cursor.
pub open spec fn moved_no_pending(v: OverlayView, c: (i32, i32), now: u64) -> (OverlayView, Response) {
    match v.state {
        OverlayState::Dragging { start, .. } => {
            let (v3, r) = throttle(
                OverlayView { state: OverlayState::Dragging { start, end: c }, ..v },
                now,
            );
            (v3, respond(Outcome::Continue, r))
        },
        OverlayState::Adjusting { rect, edit } => match edit {
            Some(_) => {
                let (v3, r) = throttle(
                    OverlayView { state: spec_update_edit(v.state, c), ..v },
                    now,
                );
                (v3, respond(Outcome::Continue, r))
            },
            None => (
                v,
                Response {
                    outcome: Outcome::Continue,
                    redraw: false,
                    cursor_icon: Some(spec_cursor_icon_for(spec_classify(c, rect))),
                },
            ),
        },
        OverlayState::Idle => moved_idle(v, c, now),
    }
}

/// Cursor motion: an in-flight drawing follows the cursor; otherwise see
/// `moved_no_pending`. Positions are clamped to `CURSOR_LIMIT`.
pub open spec fn step_cursor_moved(v: OverlayView, p: (i32, i32), now: u64) -> (OverlayView, Response) {
    let c = clamp_point(p);
    let v1 = OverlayView { cursor: c, ..v };
    match v1.pending {
        Some(d) => {
            let v2 = OverlayView {
                pending: Some(pending_extend(d, spec_frame_point(v.window_size, v.frame_size, c))),
                ..v1
            };
            let (v3, r) = throttle(v2, now);
            (v3, respond(Outcome::Continue, r))
        },
        None => moved_no_pending(v1, c, now),
    }
}

/// A press inside the selection's body or on its border once neither the
/// toolbar nor the text tool took it.
pub open spec fn press_zone(v: OverlayView, rect: Rect) -> (OverlayView, Response) {
    match spec_classify(v.cursor, rect) {
        HitZone::Anchor(a) => (
            OverlayView {
                state: OverlayState::Adjusting {
                    rect,
                    edit: Some(Edit::Resize { anchor: a, origin: rect, from: v.cursor }),
                },
                ..v
            },
            respond(Outcome::Continue, true),
        ),
        HitZone::Inside => if v.tool != Tool::Move {
            let fp = spec_frame_point(v.window_size, v.frame_size, v.cursor);
            let d = if v.tool == Tool::Pen {
                PendingView::Pen { points: seq![fp], style: v.style }
            } else {
                PendingView::Shape { tool: v.tool, from_frame: fp, to_frame: fp, style: v.style }
            };
            (OverlayView { pending: Some(d), ..v }, respond(Outcome::Continue, true))
        } else {
            (
                OverlayView {
                    state: OverlayState::Adjusting {
                        rect,
                        edit: Some(Edit::Translate { origin: rect, from: v.cursor }),
                    },
                    ..v
                },
                respond(Outcome::Continue, true),
            )
        },
        HitZone::Outside => (v, respond(Outcome::Continue, false)),
    }
}

/// A press with the text tool first commits the text being edited; inside
/// the selection it then starts a new edit there.
pub open spec fn press_text_or_zone(v: OverlayView, rect: Rect, now: u64) -> (OverlayView, Response) {
    if v.tool == Tool::Text {
        let v1 = commit_text(v);
        if rect.spec_contains(v1.cursor) {
            let t = TextEditView {
                origin_frame: spec_frame_point(v.window_size, v.frame_size, v.cursor),
                buffer: Seq::empty(),
                preedit: Seq::empty(),
                last_blink: now,
                cursor_visible: true,
            };
            (OverlayView { text: Some(t), ..v1 }, respond(Outcome::Continue, true))
        } else {
            press_zone(v1, rect)
        }
    } else {
        press_zone(v, rect)
    }
}

/// A press while adjusting `rect`: a double click inside confirms; the
/// toolbar comes next; then the text tool and the selection itself.
pub open spec fn press_adjusting(v: OverlayView, rect: Rect, double: bool, now: u64) -> (OverlayView, Response) {
    if double && rect.spec_contains(v.cursor) && rect.has_area() {
        (commit_text(v), respond(Outcome::Confirmed(rect), false))
    } else {
        match layout_hit(rect, v.window_size, v.cursor, v.tool) {
            ToolbarHit::Tool(t) => (
                OverlayView {
                    pending: None,
                    state: OverlayState::Adjusting { rect, edit: None },
                    tool: t,
                    ..v
                },
                respond(Outcome::Continue, true),
            ),
            ToolbarHit::Undo => (
                OverlayView { history: history_undo(v.history), ..v },
                respond(Outcome::Continue, v.history.0.len() > 0),
            ),
            ToolbarHit::Redo => (
                OverlayView { history: history_redo(v.history), ..v },
                respond(Outcome::Continue, v.history.1.len() > 0),
            ),
            ToolbarHit::Color(c) => (
                OverlayView { style: AnnotationStyle { color: c, ..v.style }, ..v },
                respond(Outcome::Continue, true),
            ),
            ToolbarHit::Stroke(s) => (
                OverlayView { style: AnnotationStyle { stroke: s, ..v.style }, ..v },
                respond(Outcome::Continue, true),
            ),
            ToolbarHit::Pin => (commit_text(v), respond(Outcome::Pinned(rect), false)),
            ToolbarHit::Save => (commit_text(v), respond(Outcome::SaveAs(rect), false)),
            ToolbarHit::Nothing => press_text_or_zone(v, rect, now),
        }
    }
}

/// Left button down at clock reading `now`.
pub open spec fn step_left_pressed(v: OverlayView, now: u64) -> (OverlayView, Response) {
    if v.show_hints {
        (OverlayView { show_hints: false, ..v }, respond(Outcome::Continue, true))
    } else {
        let double = v.last_click matches Some(t) && elapsed_ms(now, t) < DOUBLE_CLICK_MS;
        let v1 = OverlayView { last_click: Some(now), ..v };
        match v1.state {
            OverlayState::Idle => (
                OverlayView { press_pos: Some(v1.cursor), snap_at_press: v1.snap_target, ..v1 },
                respond(Outcome::Continue, false),
            ),
            OverlayState::Dragging { .. } => (v1, respond(Outcome::Continue, false)),
            OverlayState::Adjusting { rect, .. } => press_adjusting(v1, rect, double, now),
        }
    }
}

/// Left button up: finish a drawing, a snap click, a drag or an edit.
pub open spec fn step_left_released(v: OverlayView) -> (OverlayView, Response) {
    match v.pending {
        Some(d) => {
            let h = match pending_finalize(d) {
                Some(a) => history_push(v.history, a),
                None => v.history,
            };
            (OverlayView { pending: None, history: h, ..v }, respond(Outcome::Continue, true))
        },
        None => match v.press_pos {
            Some(_) => match v.snap_at_press {
                Some(r) => (
                    OverlayView {
                        press_pos: None,
                        snap_at_press: None,
                        state: OverlayState::Adjusting { rect: r, edit: None },
                        snap_target: None,
                        ..v
                    },
                    respond(Outcome::Continue, true),
                ),
                None => (OverlayView { press_pos: None, ..v }, respond(Outcome::Continue, false)),
            },
            None => match v.state {
                OverlayState::Dragging { start, end } => {
                    let r = Rect::spec_normalize(start, end);
                    if r.has_area() {
                        (
                            OverlayView {
                                state: OverlayState::Adjusting { rect: r, edit: None },
                                ..v
                            },
                            respond(Outcome::Continue, true),
                        )
                    } else {
                        (
                            OverlayView { state: OverlayState::Idle, snap_target: None, ..v },
                            respond(Outcome::Continue, true),
                        )
                    }
                },
                OverlayState::Adjusting { edit: Some(_), .. } => (
                    OverlayView { state: spec_commit_edit(v.state), ..v },
                    respond(Outcome::Continue, true),
                ),
                _ => (v, respond(Outcome::Continue, false)),
            },
        },
    }
}

/// The first character of a key's text, or NUL when it has none.
pub open spec fn first_char(s: Seq<char>) -> char {
    if s.len() > 0 { s[0] } else { '\0' }
}

/// Letter keys that select tools.
pub open spec fn tool_for_key(c: char) -> Option<Tool> {
    if c == 'm' {
        Some(Tool::Move)
    } else if c == 'a' {
        Some(Tool::Arrow)
    } else if c == 'r' {
        Some(Tool::Rect)
    } else if c == 'e' {
        Some(Tool::Ellipse)
    } else if c == 'b' {
        Some(Tool::Mosaic)
    } else if c == 'p' {
        Some(Tool::Pen)
    } else if c == 't' {
        Some(Tool::Text)
    } else {
        None
    }
}

/// A key while text is being edited: Enter commits (Shift+Enter types a
/// newline), Escape discards the text, Backspace deletes, `[` and `]` resize,
/// other text is typed; everything else is ignored.
pub open spec fn key_while_editing(v: OverlayView, t: TextEditView, k: KeyView) -> (OverlayView, Response) {
    match k {
        KeyView::Enter => if v.modifiers.shift {
            (OverlayView { text: Some(text_typed(t, '\n')), ..v }, respond(Outcome::Continue, true))
        } else {
            (commit_text(v), respond(Outcome::Continue, true))
        },
        KeyView::Escape => (OverlayView { text: None, ..v }, respond(Outcome::Continue, true)),
        KeyView::Backspace => (
            OverlayView { text: Some(text_backspaced(t)), ..v },
            respond(Outcome::Continue, true),
        ),
        KeyView::Character(s) => {
            let ch = first_char(s);
            if ch == '[' || ch == ']' {
                let stroke = if ch == '[' { stroke_down(v.style.stroke) } else { stroke_up(v.style.stroke) };
                (
                    OverlayView { style: AnnotationStyle { stroke, ..v.style }, ..v },
                    respond(Outcome::Continue, true),
                )
            } else {
                (OverlayView { text: Some(text_typed_all(t, s)), ..v }, respond(Outcome::Continue, true))
            }
        },
        KeyView::Other => (v, respond(Outcome::Continue, false)),
    }
}

/// Escape hides the hint badges if shown, else cancels; Enter confirms a
/// selection with an area.
pub open spec fn key_fallback(v: OverlayView, k: KeyView) -> (OverlayView, Response) {
    match k {
        KeyView::Escape => if v.show_hints {
            (OverlayView { show_hints: false, ..v }, respond(Outcome::Continue, true))
        } else {
            (v, respond(Outcome::Cancelled, false))
        },
        KeyView::Enter => match spec_on_enter(v.state) {
            Transition::Confirm(r) => (v, respond(Outcome::Confirmed(r), false)),
            _ => (v, respond(Outcome::Continue, false)),
        },
        _ => (v, respond(Outcome::Continue, false)),
    }
}

/// Shortcuts while adjusting without the super key: `h` toggles the hint
/// badges; tool letters, digits 1-4, `[` and `]` pick tool, color and
/// stroke. Cmd/Ctrl+Z undoes, Cmd/Ctrl+Shift+Z redoes.
pub open spec fn key_shortcuts(v: OverlayView, k: KeyView) -> (OverlayView, Response) {
    let adjusting = v.state is Adjusting;
    let plain = adjusting && !v.modifiers.super_key;
    match k {
        KeyView::Character(s) => {
            let ch = ascii_lower(first_char(s));
            if plain && ch == 'h' {
                (OverlayView { show_hints: !v.show_hints, ..v }, respond(Outcome::Continue, true))
            } else if (v.modifiers.super_key || v.modifiers.ctrl) && ch == 'z' {
                if v.modifiers.shift {
                    (
                        OverlayView { history: history_redo(v.history), ..v },
                        respond(Outcome::Continue, v.history.1.len() > 0),
                    )
                } else {
                    (
                        OverlayView { history: history_undo(v.history), ..v },
                        respond(Outcome::Continue, v.history.0.len() > 0),
                    )
                }
            } else if plain && tool_for_key(ch) is Some {
                (
                    OverlayView {
                        pending: None,
                        state: OverlayState::Adjusting { rect: v.state->rect, edit: None },
                        tool: tool_for_key(ch)->0,
                        ..v
                    },
                    respond(Outcome::Continue, true),
                )
            } else if plain && spec_key_to_color(ch) is Some {
                (
                    OverlayView {
                        style: AnnotationStyle { color: spec_key_to_color(ch)->0, ..v.style },
                        ..v
                    },
                    respond(Outcome::Continue, true),
                )
            } else if plain && ch == '[' {
                (
                    OverlayView {
                        style: AnnotationStyle { stroke: stroke_down(v.style.stroke), ..v.style },
                        ..v
                    },
                    respond(Outcome::Continue, true),
                )
            } else if plain && ch == ']' {
                (
                    OverlayView {
                        style: AnnotationStyle { stroke: stroke_up(v.style.stroke), ..v.style },
                        ..v
                    },
                    respond(Outcome::Continue, true),
                )
            } else {
                key_fallback(v, k)
            }
        },
        _ => key_fallback(v, k),
    }
}

/// A key press: the text editor, when open, takes every key.
pub open spec fn step_key(v: OverlayView, k: KeyView) -> (OverlayView, Response) {
    match v.text {
        Some(t) => key_while_editing(v, t, k),
        None => key_shortcuts(v, k),
    }
}

/// Any event.
pub open spec fn step_event(v: OverlayView, e: EventView) -> (OverlayView, Response) {
    match e {
        EventView::CursorMoved { x, y, now_ms } => step_cursor_moved(v, (x, y), now_ms),
        EventView::LeftPressed { now_ms } => step_left_pressed(v, now_ms),
        EventView::LeftReleased => step_left_released(v),
        EventView::KeyPressed(k) => step_key(v, k),
        EventView::ModifiersChanged(m) => (
            OverlayView { modifiers: m, ..v },
            respond(Outcome::Continue, false),
        ),
        EventView::ImeCommit(s) => match v.text {
            Some(t) => (
                OverlayView {
                    text: Some(TextEditView { buffer: t.buffer + s, preedit: Seq::empty(), ..t }),
                    ..v
                },
                respond(Outcome::Continue, true),
            ),
            None => (v, respond(Outcome::Continue, false)),
        },
        EventView::ImePreedit(s) => match v.text {
            Some(t) => (
                OverlayView { text: Some(TextEditView { preedit: s, ..t }), ..v },
                respond(Outcome::Continue, true),
            ),
            None => (v, respond(Outcome::Continue, false)),
        },
        EventView::CursorLeft => if v.snap_target is Some {
            (OverlayView { snap_target: None, ..v }, respond(Outcome::Continue, true))
        } else {
            (v, respond(Outcome::Continue, false))
        },
        EventView::Resized { width, height } => (
            OverlayView { window_size: (width, height), ..v },
            respond(Outcome::Continue, false),
        ),
        EventView::CloseRequested => (v, respond(Outcome::Cancelled, false)),
        EventView::Other => (v, respond(Outcome::Continue, false)),
    }
}


/// Outline color of a selection.
pub const OUTLINE_WHITE: u32 = 0x00FF_FFFF;

/// Outline color of a hovered window previewed as a snap target.
pub const SNAP_OUTLINE_BLUE: u32 = 0x0000_7AFF;

/// What one redraw paints over the dimmed frame.
#[derive(Debug, Clone, Copy, PartialEq, Eq)]
pub struct RedrawPlan {
    /// The bright, outlined region, in window pixels.
    pub selection: Option<Rect>,
    pub outline_color: u32,
    /// Annotations, the pending drawing and the text being edited.
    pub show_annotations: bool,
    pub show_anchors: bool,
    pub show_toolbar: bool,
    pub show_magnifier: bool,
    /// The `W x H` size label.
    pub show_label: bool,
}

/// The current selection clipped to the window, if it covers any pixel.
pub open spec fn spec_current_selection(v: OverlayView) -> Option<Rect> {
    let rect = match v.state {
        OverlayState::Idle => None,
        OverlayState::Dragging { start, end } => Some(Rect::spec_normalize(start, end)),
        OverlayState::Adjusting { rect, .. } => Some(rect),
    };
    match rect {
        Some(r) => {
            let c = r.spec_clamp_to(v.window_size);
            if c.w == 0 || c.h == 0 { None } else { Some(c) }
        },
        None => None,
    }
}

pub open spec fn rect_as_u32(r: Rect) -> (u32, u32, u32, u32) {
    (
        if r.x > 0 { r.x as u32 } else { 0 },
        if r.y > 0 { r.y as u32 } else { 0 },
        if r.w > 0 { r.w as u32 } else { 0 },
        if r.h > 0 { r.h as u32 } else { 0 },
    )
}

pub open spec fn at_least_one(v: u32) -> u32 {
    if v >= 1 { v } else { 1 }
}

pub open spec fn spec_window_rect_to_frame_rect(ws: (u32, u32), fs: (u32, u32), rect: Rect) -> (u32, u32, u32, u32) {
    let (ww, wh) = (at_least_one(ws.0), at_least_one(ws.1));
    let t = rect_as_u32(rect.spec_clamp_to((ww, wh)));
    (
        (t.0 * fs.0 / (ww as int)) as u32,
        (t.1 * fs.1 / (wh as int)) as u32,
        at_least_one((t.2 * fs.0 / (ww as int)) as u32),
        at_least_one((t.3 * fs.1 / (wh as int)) as u32),
    )
}

/// The redraw decided from the state: the selection (or, when Idle with no
/// selection, the hovered window in blue), annotations and toolbar while
/// adjusting, anchors for the Move tool, the magnifier until a selection
/// is adjusted, and the size label while a selection exists.
pub open spec fn spec_redraw_plan(v: OverlayView) -> RedrawPlan {
    let ws = (at_least_one(v.window_size.0), at_least_one(v.window_size.1));
    let current = spec_current_selection(v);
    let idle = v.state is Idle;
    let (selection, outline_color) = if current is None && idle && v.snap_target is Some {
        let c = v.snap_target->0.spec_clamp_to(ws);
        if c.w == 0 || c.h == 0 {
            (None, OUTLINE_WHITE)
        } else {
            (Some(c), SNAP_OUTLINE_BLUE)
        }
    } else {
        (current, OUTLINE_WHITE)
    };
    let adjusting = v.state is Adjusting;
    let dragging = v.state is Dragging;
    RedrawPlan {
        selection,
        outline_color,
        show_annotations: adjusting,
        show_anchors: adjusting && v.tool == Tool::Move && selection is Some,
        show_toolbar: adjusting && selection is Some,
        show_magnifier: idle || dragging,
        show_label: (dragging || adjusting) && selection is Some,
    }
}

/// `v * f / w` for `v <= w`, which fits in a `u32`.
fn scale_down(v: u32, f: u32, w: u32) -> (r: u32)
    requires
        w >= 1,
        v <= w,
    ensures
        r == v * f / (w as int),
{
    assert(v as u64 * f as u64 <= 0xffff_ffff * 0xffff_ffff) by (nonlinear_arith)
        requires
            v <= 0xffff_ffff,
            f <= 0xffff_ffff,
    ;
    let p: u64 = v as u64 * f as u64;
    let q: u64 = p / w as u64;
    assert(q <= f) by (nonlinear_arith)
        requires
            p == v * f,
            q == (p as int) / (w as int),
            v <= w,
            w >= 1,
            f >= 0,
    {
        assert(v * f <= w * f);
    }
    q as u32
}

/// The state of a freshly opened overlay.
pub open spec fn initial_view(window_size: (u32, u32), frame_size: (u32, u32), windows: Seq<WindowEntry>) -> OverlayView {
    OverlayView {
        state: OverlayState::Idle,
        cursor: (0, 0),
        last_click: None,
        last_redraw: None,
        tool: Tool::Move,
        history: (Seq::empty(), Seq::empty()),
        pending: None,
        style: AnnotationStyle { color: Color::Red, stroke: annotate::Stroke::Medium },
        text: None,
        modifiers: Modifiers { shift: false, super_key: false, ctrl: false },
        show_hints: false,
        snap_target: None,
        press_pos: None,
        snap_at_press: None,
        windows,
        window_size,
        frame_size,
    }
}

proof fn lemma_classify_fits(c: (i32, i32), rect: Rect)
    requires
        point_ok(c),
        rect_ok(rect),
    ensures
        classify_fits(c, rect),
{
    assert forall|i: int| 0 <= i < 8 implies {
        let a = #[trigger] spec_anchor_center(rect, all_anchors()[i]);
        i32::MIN < c.0 - a.0 <= i32::MAX && i32::MIN < c.1 - a.1 <= i32::MAX
    } by {
        let a = spec_anchor_center(rect, all_anchors()[i]);
        assert(-4 * 268435456 <= a.0 <= 4 * 268435456);
        assert(-4 * 268435456 <= a.1 <= 4 * 268435456);
    }
}

proof fn lemma_layout_fits(rect: Rect, ws: (u32, u32))
    requires
        rect_ok(rect),
        window_fits(ws),
    ensures
        layout_fits(rect, ws),
{
}

proof fn lemma_under_cursor_ok(c: (i32, i32), ws: Seq<WindowEntry>)
    requires
        forall|i: int| 0 <= i < ws.len() ==> rect_ok(#[trigger] ws[i].bounds),
    ensures
        option_rect_ok(spec_window_under_cursor(c, ws)),
    decreases ws.len(),
{
    if ws.len() > 0 {
        assert(rect_ok(ws[0].bounds));
        let rest = ws.drop_first();
        assert forall|i: int| 0 <= i < rest.len() implies rect_ok(#[trigger] rest[i].bounds) by {
            assert(rest[i] == ws[i + 1]);
        }
        lemma_under_cursor_ok(c, rest);
    }
}

proof fn lemma_windows_fit(o: &Overlay)
    requires
        overlay_ok(o@),
    ensures
        entries_fit(o.window_list@),
        forall|i: int| 0 <= i < o.window_list@.len() ==> rect_ok(#[trigger] o.window_list@[i].bounds),
{
    assert forall|i: int| 0 <= i < o.window_list@.len() implies rect_ok(
        #[trigger] o.window_list@[i].bounds,
    ) by {
        assert(rect_ok(o@.windows[i].bounds));
    }
    assert forall|i: int| 0 <= i < o.window_list@.len() implies (
    #[trigger] o.window_list@[i]).bounds.edges_fit() by {
        assert(rect_ok(o.window_list@[i].bounds));
    }
}

proof fn lemma_throttle_ok(v: OverlayView, now: u64)
    requires
        overlay_ok(v),
    ensures
        overlay_ok(throttle(v, now).0),
{
}

/// Cursor motion keeps every coordinate within the overlay's limits.
pub proof fn lemma_moved_ok(v: OverlayView, p: (i32, i32), now: u64)
    requires
        overlay_ok(v),
    ensures
        overlay_ok(step_cursor_moved(v, p, now).0),
{
    let c = clamp_point(p);
    let v1 = OverlayView { cursor: c, ..v };
    assert(overlay_ok(v1));
    match v1.pending {
        Some(d) => {
            let fp = spec_frame_point(v.window_size, v.frame_size, c);
            let v2 = OverlayView { pending: Some(pending_extend(d, fp)), ..v1 };
            assert(overlay_ok(v2));
            lemma_throttle_ok(v2, now);
        },
        None => match v1.state {
            OverlayState::Dragging { start, .. } => {
                lemma_throttle_ok(OverlayView { state: OverlayState::Dragging { start, end: c }, ..v1 }, now);
            },
            OverlayState::Adjusting { .. } => {
                lemma_throttle_ok(OverlayView { state: spec_update_edit(v1.state, c), ..v1 }, now);
            },
            OverlayState::Idle => {
                lemma_under_cursor_ok(c, v1.windows);
                let t = spec_window_under_cursor(c, v1.windows);
                lemma_throttle_ok(OverlayView { snap_target: t, ..v1 }, now);
            },
        },
    }
}

proof fn lemma_commit_text_ok(v: OverlayView)
    requires
        overlay_ok(v),
    ensures
        overlay_ok(commit_text(v)),
{
}

proof fn lemma_zone_ok(v: OverlayView, rect: Rect)
    requires
        overlay_ok(v),
        rect_ok(rect),
    ensures
        overlay_ok(press_zone(v, rect).0),
{
}

/// A left press keeps every coordinate within the overlay's limits.
pub proof fn lemma_pressed_ok(v: OverlayView, now: u64)
    requires
        overlay_ok(v),
    ensures
        overlay_ok(step_left_pressed(v, now).0),
{
    if !v.show_hints {
        let v1 = OverlayView { last_click: Some(now), ..v };
        if let OverlayState::Adjusting { rect, .. } = v1.state {
            lemma_commit_text_ok(v1);
            lemma_zone_ok(v1, rect);
            lemma_zone_ok(commit_text(v1), rect);
        }
    }
}

/// A left release keeps every coordinate within the overlay's limits.
pub proof fn lemma_released_ok(v: OverlayView)
    requires
        overlay_ok(v),
    ensures
        overlay_ok(step_left_released(v).0),
{
}

/// A key press keeps every coordinate within the overlay's limits.
pub proof fn lemma_key_ok(v: OverlayView, k: KeyView)
    requires
        overlay_ok(v),
    ensures
        overlay_ok(step_key(v, k).0),
{
    lemma_commit_text_ok(v);
}

/// Every event that can be handled (see `event_fits`) keeps every
/// coordinate within the overlay's limits.
pub proof fn lemma_event_ok(v: OverlayView, e: EventView)
    requires
        overlay_ok(v),
        event_fits(v, e),
    ensures
        overlay_ok(step_event(v, e).0),
{
    match e {
        EventView::CursorMoved { x, y, now_ms } => lemma_moved_ok(v, (x, y), now_ms),
        EventView::LeftPressed { now_ms } => lemma_pressed_ok(v, now_ms),
        EventView::LeftReleased => lemma_released_ok(v),
        EventView::KeyPressed(k) => lemma_key_ok(v, k),
        _ => {},
    }
}

/// Escape cancels the overlay from any state, unless the text editor is
/// open (Escape then discards the text) or the hint badges are shown
/// (Escape then hides them); nothing else changes.
pub proof fn lemma_escape_cancels(v: OverlayView)
    requires
        v.text is None,
        !v.show_hints,
    ensures
        step_key(v, KeyView::Escape).0 == v,
        step_key(v, KeyView::Escape).1.outcome == Outcome::Cancelled,
{
}

/// Enter confirms an adjusted selection that has an area, when no text is
/// being edited.
pub proof fn lemma_enter_confirms(v: OverlayView, rect: Rect, edit: Option<Edit>)
    requires
        v.text is None,
        v.state == (OverlayState::Adjusting { rect, edit }),
        rect.has_area(),
    ensures
        step_key(v, KeyView::Enter).1.outcome == Outcome::Confirmed(rect),
        step_key(v, KeyView::Enter).0 == v,
{
}

/// A second press within `DOUBLE_CLICK_MS`, inside an adjusted selection
/// with an area, confirms that selection (after keeping any edited text).
pub proof fn lemma_double_click_confirms(v: OverlayView, rect: Rect, edit: Option<Edit>, t: u64, now: u64)
    requires
        !v.show_hints,
        v.state == (OverlayState::Adjusting { rect, edit }),
        v.last_click == Some(t),
        elapsed_ms(now, t) < DOUBLE_CLICK_MS,
        rect.spec_contains(v.cursor),
        rect.has_area(),
    ensures
        step_left_pressed(v, now).1.outcome == Outcome::Confirmed(rect),
{
}

/// Cmd+Z (or Ctrl+Z) followed by Cmd+Shift+Z (or Ctrl+Shift+Z) gives back
/// the annotations that were there before, when there was something to undo
/// and no text is being edited.
pub proof fn lemma_undo_key_then_redo_key(v: OverlayView)
    requires
        v.text is None,
        !v.modifiers.shift,
        v.modifiers.super_key || v.modifiers.ctrl,
        v.history.0.len() > 0,
    ensures
        ({
            let (v1, r1) = step_key(v, KeyView::Character(seq!['z']));
            let (v2, _) = step_event(
                v1,
                EventView::ModifiersChanged(Modifiers { shift: true, ..v.modifiers }),
            );
            let (v3, r3) = step_key(v2, KeyView::Character(seq!['Z']));
            &&& r1.redraw && r3.redraw
            &&& v1.history == history_undo(v.history)
            &&& v3.history == v.history
        }),
{
    assert(ascii_lower(first_char(seq!['z'])) == 'z');
    assert(ascii_lower(first_char(seq!['Z'])) == 'z');
    let h = v.history;
    assert(h.0.drop_last().push(h.0.last()) =~= h.0);
    assert(h.1.push(h.0.last()).drop_last() =~= h.1);
}

/// Releasing a drag whose rectangle has an area starts adjusting that
/// rectangle; releasing a degenerate drag goes back to Idle.
pub proof fn lemma_drag_release(v: OverlayView, start: (i32, i32), end: (i32, i32))
    requires
        v.pending is None,
        v.press_pos is None,
        v.state == (OverlayState::Dragging { start, end }),
    ensures
        Rect::spec_normalize(start, end).has_area() ==> step_left_released(v).0.state == (
        OverlayState::Adjusting { rect: Rect::spec_normalize(start, end), edit: None }),
        !Rect::spec_normalize(start, end).has_area() ==> step_left_released(v).0.state
            == OverlayState::Idle,
{
}

/// Releasing the button ends a drawing: the drawing's annotation, if it
/// leaves one, is appended to the history and the redo stack is cleared.
pub proof fn lemma_release_keeps_drawing(v: OverlayView, d: PendingView)
    requires
        v.pending == Some(d),
    ensures
        step_left_released(v).0.pending is None,
        pending_finalize(d) matches Some(a) ==> step_left_released(v).0.history == history_push(
            v.history,
            a,
        ),
        pending_finalize(d) is None ==> step_left_released(v).0.history == v.history,
{
}

/// Plain Enter in the text editor keeps non-empty text as a Text annotation
/// in the current style and closes the editor; empty text leaves no
/// annotation.
pub proof fn lemma_enter_commits_text(v: OverlayView, t: TextEditView)
    requires
        v.text == Some(t),
        !v.modifiers.shift,
    ensures
        step_key(v, KeyView::Enter).0.text is None,
        t.buffer.len() > 0 ==> step_key(v, KeyView::Enter).0.history == history_push(
            v.history,
            AnnotationView::Text { origin: t.origin_frame, content: t.buffer, style: v.style },
        ),
        t.buffer.len() == 0 ==> step_key(v, KeyView::Enter).0.history == v.history,
{
}

/// In an adjusted selection with no text being edited and no super key
/// held, the letter keys pick tools (in either case) and drop any drawing
/// in flight.
pub proof fn lemma_tool_keys(v: OverlayView, c: char)
    requires
        v.text is None,
        v.state is Adjusting,
        !v.modifiers.super_key,
        tool_for_key(ascii_lower(c)) is Some,
    ensures
        step_key(v, KeyView::Character(seq![c])).0.tool == tool_for_key(ascii_lower(c))->0,
        step_key(v, KeyView::Character(seq![c])).0.pending is None,
{
    assert(first_char(seq![c]) == c);
}

/// The tool keys, in either letter case, in an adjusted selection with no
/// text being edited and no super key held: M Move, A Arrow, R Rectangle,
/// E Ellipse, B Mosaic (blur), P Pen, T Text.
pub proof fn lemma_tool_key_table(v: OverlayView, c: char)
    requires
        v.text is None,
        v.state is Adjusting,
        !v.modifiers.super_key,
    ensures
        ascii_lower(c) == 'm' ==> step_key(v, KeyView::Character(seq![c])).0.tool == Tool::Move,
        ascii_lower(c) == 'a' ==> step_key(v, KeyView::Character(seq![c])).0.tool == Tool::Arrow,
        ascii_lower(c) == 'r' ==> step_key(v, KeyView::Character(seq![c])).0.tool == Tool::Rect,
        ascii_lower(c) == 'e' ==> step_key(v, KeyView::Character(seq![c])).0.tool == Tool::Ellipse,
        ascii_lower(c) == 'b' ==> step_key(v, KeyView::Character(seq![c])).0.tool == Tool::Mosaic,
        ascii_lower(c) == 'p' ==> step_key(v, KeyView::Character(seq![c])).0.tool == Tool::Pen,
        ascii_lower(c) == 't' ==> step_key(v, KeyView::Character(seq![c])).0.tool == Tool::Text,
{
    if tool_for_key(ascii_lower(c)) is Some {
        lemma_tool_keys(v, c);
    }
}

/// The letter on a tool's hint badge is the key that selects that tool, as
/// shown (upper case) or in lower case.
pub proof fn lemma_hint_letter_selects_tool(v: OverlayView, t: Tool)
    requires
        v.text is None,
        v.state is Adjusting,
        !v.modifiers.super_key,
    ensures
        step_key(v, KeyView::Character(seq![spec_tool_hint(t)])).0.tool == t,
        step_key(v, KeyView::Character(seq![ascii_lower(spec_tool_hint(t))])).0.tool == t,
{
    let h = spec_tool_hint(t);
    lemma_tool_key_table(v, h);
    lemma_tool_key_table(v, ascii_lower(h));
}

proof fn lemma_floor_div(a: int, b: int)
    requires
        a >= 0,
        b > 0,
    ensures
        a / b >= 0,
        (a / b) * b <= a < (a / b + 1) * b,
{
    vstd::arithmetic::div_mod::lemma_fundamental_div_mod(a, b);
    assert(a / b >= 0 && (a / b) * b <= a < (a / b + 1) * b) by (nonlinear_arith)
        requires
            a >= 0,
            b > 0,
            a == b * (a / b) + a % b,
            0 <= a % b < b,
    ;
}

/// What a confirm exports, in frame pixels: the selection clipped to the
/// window, each coordinate and side scaled by frame size over window size
/// (a window side of zero read as one) and rounded down, each side at
/// least one pixel. The exported size is the size the `W x H` label shows
/// for the clipped selection.
pub proof fn lemma_frame_rect_scales(ws: (u32, u32), fs: (u32, u32), rect: Rect)
    requires
        window_fits(ws),
        rect.edges_fit(),
    ensures
        ({
            let ww: int = if ws.0 >= 1 { ws.0 as int } else { 1 };
            let wh: int = if ws.1 >= 1 { ws.1 as int } else { 1 };
            let x0 = clamp(rect.x as int, 0, ww);
            let x1 = clamp(rect.x + rect.w, 0, ww);
            let y0 = clamp(rect.y as int, 0, wh);
            let y1 = clamp(rect.y + rect.h, 0, wh);
            let sw: int = if x1 > x0 { x1 - x0 } else { 0 };
            let sh: int = if y1 > y0 { y1 - y0 } else { 0 };
            let r = spec_window_rect_to_frame_rect(ws, fs, rect);
            &&& r.0 * ww <= x0 * fs.0 < (r.0 + 1) * ww
            &&& r.1 * wh <= y0 * fs.1 < (r.1 + 1) * wh
            &&& r.2 >= 1 && sw * fs.0 < (r.2 + 1) * ww && (r.2 == 1 || r.2 * ww <= sw * fs.0)
            &&& r.3 >= 1 && sh * fs.1 < (r.3 + 1) * wh && (r.3 == 1 || r.3 * wh <= sh * fs.1)
            &&& sw > 0 ==> r.2 == self::render::label_dim(sw as i32, fs.0, ws.0)
            &&& sh > 0 ==> r.3 == self::render::label_dim(sh as i32, fs.1, ws.1)
        }),
{
    let ww: int = if ws.0 >= 1 { ws.0 as int } else { 1 };
    let wh: int = if ws.1 >= 1 { ws.1 as int } else { 1 };
    let c = rect.spec_clamp_to((ww as u32, wh as u32));
    let t = rect_as_u32(c);
    let x0 = clamp(rect.x as int, 0, ww);
    let x1 = clamp(rect.x + rect.w, 0, ww);
    let y0 = clamp(rect.y as int, 0, wh);
    let y1 = clamp(rect.y + rect.h, 0, wh);
    let sw: int = if x1 > x0 { x1 - x0 } else { 0 };
    let sh: int = if y1 > y0 { y1 - y0 } else { 0 };
    assert(t.0 == x0 && t.1 == y0 && t.2 == sw && t.3 == sh);
    lemma_floor_div(x0 * fs.0, ww);
    lemma_floor_div(y0 * fs.1, wh);
    lemma_floor_div(sw * fs.0, ww);
    lemma_floor_div(sh * fs.1, wh);
    assert(x0 * fs.0 <= ww * fs.0 && y0 * fs.1 <= wh * fs.1 && sw * fs.0 <= ww * fs.0 && sh * fs.1
        <= wh * fs.1) by (nonlinear_arith)
        requires
            0 <= x0 <= ww,
            0 <= y0 <= wh,
            0 <= sw <= ww,
            0 <= sh <= wh,
            fs.0 >= 0,
            fs.1 >= 0,
    ;
    assert(x0 * fs.0 / ww <= fs.0 && y0 * fs.1 / wh <= fs.1 && sw * fs.0 / ww <= fs.0 && sh * fs.1
        / wh <= fs.1) by (nonlinear_arith)
        requires
            (x0 * fs.0 / ww) * ww <= x0 * fs.0 <= ww * fs.0,
            (y0 * fs.1 / wh) * wh <= y0 * fs.1 <= wh * fs.1,
            (sw * fs.0 / ww) * ww <= sw * fs.0 <= ww * fs.0,
            (sh * fs.1 / wh) * wh <= sh * fs.1 <= wh * fs.1,
            ww > 0,
            wh > 0,
    ;
    let r = spec_window_rect_to_frame_rect(ws, fs, rect);
    let qw = sw * fs.0 / ww;
    let qh = sh * fs.1 / wh;
    assert(r.2 == if qw >= 1 { qw } else { 1 });
    assert(r.3 == if qh >= 1 { qh } else { 1 });
    assert((qw + 1) * ww <= (r.2 + 1) * ww && (qh + 1) * wh <= (r.3 + 1) * wh) by (nonlinear_arith)
        requires
            qw <= r.2,
            qh <= r.3,
            ww > 0,
            wh > 0,
    ;
}

/// A click on a hovered window selects it: a release that ends a press
/// made in Idle with a window under the cursor, when the press did not turn
/// into a drag, adjusts exactly that window's rectangle, with no edit.
pub proof fn lemma_snap_click_selects_window(v: OverlayView, r: Rect)
    requires
        v.pending is None,
        v.press_pos is Some,
        v.snap_at_press == Some(r),
    ensures
        step_left_released(v).0.state == (OverlayState::Adjusting { rect: r, edit: None }),
        step_left_released(v).0.press_pos is None,
{
}

/// Pressing and releasing the left button in Idle, with the window `r`
/// hovered and nothing drawn in flight, selects `r`.
pub proof fn lemma_press_release_on_window(v: OverlayView, r: Rect, now: u64)
    requires
        v.state is Idle,
        !v.show_hints,
        v.pending is None,
        v.snap_target == Some(r),
    ensures
        step_left_released(step_left_pressed(v, now).0).0.state == (OverlayState::Adjusting {
            rect: r,
            edit: None,
        }),
{
    lemma_snap_click_selects_window(step_left_pressed(v, now).0, r);
}

/// Every sequence of events, each of which can be handled when it comes,
/// keeps every coordinate within the overlay's limits.
pub proof fn lemma_events_ok(v: OverlayView, events: Seq<EventView>)
    requires
        overlay_ok(v),
        events_fit(v, events),
    ensures
        overlay_ok(run_events(v, events)),
    decreases events.len(),
{
    if events.len() > 0 {
        lemma_events_ok(v, events.drop_last());
        lemma_event_ok(run_events(v, events.drop_last()), events.last());
    }
}

/// Each event of the sequence can be handled in the state the earlier ones
/// lead to.
pub open spec fn events_fit(v: OverlayView, events: Seq<EventView>) -> bool
    decreases events.len(),
{
    events.len() == 0 || (events_fit(v, events.drop_last()) && event_fits(
        run_events(v, events.drop_last()),
        events.last(),
    ))
}

/// Escape while text is being edited throws the text away and keeps the
/// overlay open; the annotations stay as they were.
pub proof fn lemma_escape_discards_text(v: OverlayView, t: TextEditView)
    requires
        v.text == Some(t),
    ensures
        step_key(v, KeyView::Escape).0.text is None,
        step_key(v, KeyView::Escape).0.history == v.history,
        step_key(v, KeyView::Escape).1.outcome == Outcome::Continue,
{
}

/// Escape always gets out of the overlay: pressed up to three times in a
/// row, it cancels. A first press closes the text editor and the next hides
/// the hint badges, when either is open.
pub proof fn lemma_escape_always_cancels(v: OverlayView)
    ensures
        ({
            let (v1, r1) = step_key(v, KeyView::Escape);
            let (v2, r2) = step_key(v1, KeyView::Escape);
            let (v3, r3) = step_key(v2, KeyView::Escape);
            r1.outcome == Outcome::Cancelled || r2.outcome == Outcome::Cancelled || r3.outcome
                == Outcome::Cancelled
        }),
{
    let (v1, r1) = step_key(v, KeyView::Escape);
    let (v2, r2) = step_key(v1, KeyView::Escape);
    assert(v1.text is None);
    assert(v2.text is None && !v2.show_hints);
    lemma_escape_cancels(v2);
}

/// While the hint badges are shown, a click only hides them: nothing else
/// changes and nothing is confirmed.
pub proof fn lemma_click_hides_hints(v: OverlayView, now: u64)
    requires
        v.show_hints,
    ensures
        step_left_pressed(v, now).0 == (OverlayView { show_hints: false, ..v }),
        step_left_pressed(v, now).1.outcome == Outcome::Continue,
{
}

/// The state after a sequence of events.
pub open spec fn run_events(v: OverlayView, events: Seq<EventView>) -> OverlayView
    decreases events.len(),
{
    if events.len() == 0 {
        v
    } else {
        step_event(run_events(v, events.drop_last()), events.last()).0
    }
}


/// The first character of `s`, or NUL when `s` is empty.
fn first_char_of(s: &str) -> (c: char)
    ensures
        c == first_char(s@),
{
    if s.unicode_len() > 0 {
        s.get_char(0)
    } else {
        '\0'
    }
}

fn tool_for_char(c: char) -> (t: Option<Tool>)
    ensures
        t == tool_for_key(c),
{
    match c {
        'm' => Some(Tool::Move),
        'a' => Some(Tool::Arrow),
        'r' => Some(Tool::Rect),
        'e' => Some(Tool::Ellipse),
        'b' => Some(Tool::Mosaic),
        'p' => Some(Tool::Pen),
        't' => Some(Tool::Text),
        _ => None,
    }
}

fn same_rect_option(a: Option<Rect>, b: Option<Rect>) -> (r: bool)
    ensures
        r == (a == b),
{
    match (a, b) {
        (Some(x), Some(y)) => x == y,
        (None, None) => true,
        _ => false,
    }
}

fn scale_coord(p: i32, f: u32, w: u32) -> (r: i32)
    ensures
        r == scale_toward_zero(p as int, f as int, w as int) as i32,
{
    let w64: i64 = if w == 0 { 1 } else { w as i64 };
    let fw: i64 = f as i64;
    let a: i64 = if p >= 0 { p as i64 } else { -(p as i64) };
    assert(0 <= a * fw <= 0x8000_0000 * 0xffff_ffff) by (nonlinear_arith)
        requires
            0 <= a <= 0x8000_0000,
            0 <= fw <= 0xffff_ffff,
    ;
    let q = a * fw / w64;
    assert(0 <= q <= a * fw) by (nonlinear_arith)
        requires
            q == (a * fw) as int / (w64 as int),
            w64 >= 1,
            a * fw >= 0,
    ;
    let s: i64 = if p >= 0 { q } else { -q };
    #[verifier::truncate] (s as i32)
}

impl Overlay {
    /// Every coordinate the overlay holds lies within its limits.
    pub open spec fn wf(&self) -> bool {
        overlay_ok(self@)
    }

    /// A fresh overlay in Idle over a window of `window_size` showing a frame
    /// of `frame_size`, with the on-screen windows for snapping.
    pub fn new(window_size: (u32, u32), frame_size: (u32, u32), window_list: Vec<WindowEntry>) -> (o: Self)
        requires
            window_fits(window_size),
            forall|i: int| 0 <= i < window_list@.len() ==> rect_ok(#[trigger] window_list@[i].bounds),
        ensures
            o@ == initial_view(window_size, frame_size, window_list@),
            o.wf(),
    {
        let o = Overlay {
            state: OverlayState::Idle,
            cursor: (0, 0),
            last_click: None,
            last_redraw: None,
            tool: Tool::Move,
            history: History::new(),
            pending_draw: None,
            current_style: AnnotationStyle { color: Color::Red, stroke: annotate::Stroke::Medium },
            text_edit: None,
            modifiers: Modifiers { shift: false, super_key: false, ctrl: false },
            show_hints: false,
            snap_target: None,
            press_pos: None,
            snap_at_press: None,
            window_list,
            window_size,
            frame_size,
        };
        assert(o@.history.0 =~= Seq::<AnnotationView>::empty());
        assert(o@.history.1 =~= Seq::<AnnotationView>::empty());
        assert(o@ =~= initial_view(window_size, frame_size, window_list@));
        o
    }

    /// A window point in frame pixels: scaled by frame size over window
    /// size in 64-bit arithmetic, rounded toward zero, then cut to `i32`.
    pub fn window_point_to_frame_point(&self, p: (i32, i32)) -> (r: (i32, i32))
        ensures
            r == spec_frame_point(self.window_size, self.frame_size, p),
    {
        (
            scale_coord(p.0, self.frame_size.0, self.window_size.0),
            scale_coord(p.1, self.frame_size.1, self.window_size.1),
        )
    }

    fn throttle_redraw(&mut self, now_ms: u64) -> (r: bool)
        ensures
            (final(self)@, r) == throttle(old(self)@, now_ms),
            final(self).state == old(self).state,
    {
        let should = match self.last_redraw {
            None => true,
            Some(t) => elapsed(now_ms, t) >= REDRAW_INTERVAL_MS,
        };
        if should {
            self.last_redraw = Some(now_ms);
        }
        assert(self@ =~= throttle(old(self)@, now_ms).0);
        should
    }

    fn commit_text_edit(&mut self)
        requires
            old(self).wf(),
        ensures
            final(self)@ == commit_text(old(self)@),
            final(self).wf(),
    {
        let t = self.text_edit.take();
        match t {
            Some(t) => {
                if !t.buffer.as_str().is_empty() {
                    let a = Annotation::Text {
                        origin: t.origin_frame,
                        content: t.buffer,
                        style: self.current_style,
                    };
                    proof {
                        lemma_model_push(self.history@, a);
                    }
                    self.history.push(a);
                }
            },
            None => {},
        }
        assert(self@ =~= commit_text(old(self)@));
    }

    /// Cursor motion to `p` at clock reading `now_ms`.
    pub fn handle_cursor_moved(&mut self, p: (i32, i32), now_ms: u64) -> (r: Response)
        requires
            old(self).wf(),
        ensures
            final(self).wf(),
            (final(self)@, r) == step_cursor_moved(old(self)@, p, now_ms),
    {
        proof {
            lemma_moved_ok(self@, p, now_ms);
        }
        let c = (clamp_i32(p.0, -CURSOR_LIMIT, CURSOR_LIMIT), clamp_i32(p.1, -CURSOR_LIMIT, CURSOR_LIMIT));
        self.cursor = c;
        if self.pending_draw.is_some() {
            let fp = self.window_point_to_frame_point(c);
            match &mut self.pending_draw {
                Some(d) => d.extend_to(fp),
                None => {},
            }
            assert(self@ =~= OverlayView {
                pending: Some(pending_extend(old(self)@.pending->0, fp)),
                cursor: c,
                ..old(self)@
            });
            let r = self.throttle_redraw(now_ms);
            return Response { outcome: Outcome::Continue, redraw: r, cursor_icon: None };
        }
        assert(self@ =~= OverlayView { cursor: c, ..old(self)@ });
        self.moved_no_pending(c, now_ms)
    }

    fn moved_no_pending(&mut self, c: (i32, i32), now_ms: u64) -> (r: Response)
        requires
            overlay_ok(old(self)@),
            old(self)@.cursor == c,
        ensures
            (final(self)@, r) == moved_no_pending(old(self)@, c, now_ms),
    {
        match self.state {
            OverlayState::Dragging { start, .. } => {
                self.state = on_mouse_move_dragging(start, c);
                let r = self.throttle_redraw(now_ms);
                Response { outcome: Outcome::Continue, redraw: r, cursor_icon: None }
            },
            OverlayState::Adjusting { rect, edit } => match edit {
                Some(_) => {
                    self.state = update_edit(self.state, c);
                    let r = self.throttle_redraw(now_ms);
                    Response { outcome: Outcome::Continue, redraw: r, cursor_icon: None }
                },
                None => {
                    proof {
                        lemma_classify_fits(c, rect);
                    }
                    let zone = classify(c, rect);
                    Response {
                        outcome: Outcome::Continue,
                        redraw: false,
                        cursor_icon: Some(cursor_icon_for(zone)),
                    }
                },
            },
            OverlayState::Idle => self.moved_idle(c, now_ms),
        }
    }

    fn moved_idle(&mut self, c: (i32, i32), now_ms: u64) -> (r: Response)
        requires
            overlay_ok(old(self)@),
            old(self)@.cursor == c,
        ensures
            (final(self)@, r) == moved_idle(old(self)@, c, now_ms),
    {
        proof {
            lemma_windows_fit(&*self);
        }
        match self.press_pos {
            Some(start) => {
                if drag_threshold_exceeded(start, c) {
                    self.state = OverlayState::Dragging { start, end: c };
                    self.snap_target = None;
                    self.press_pos = None;
                    self.snap_at_press = None;
                    Response { outcome: Outcome::Continue, redraw: true, cursor_icon: None }
                } else {
                    Response { outcome: Outcome::Continue, redraw: false, cursor_icon: None }
                }
            },
            None => {
                let t = window_under_cursor(c, self.window_list.as_slice());
                let changed = !same_rect_option(t, self.snap_target);
                self.snap_target = t;
                let r = self.throttle_redraw(now_ms);
                Response { outcome: Outcome::Continue, redraw: r || changed, cursor_icon: None }
            },
        }
    }

    /// Left button down at clock reading `now_ms`.
    pub fn handle_left_press(&mut self, now_ms: u64) -> (r: Response)
        requires
            old(self).wf(),
        ensures
            final(self).wf(),
            (final(self)@, r) == step_left_pressed(old(self)@, now_ms),
    {
        proof {
            lemma_pressed_ok(self@, now_ms);
        }
        if self.show_hints {
            self.show_hints = false;
            assert(self@ =~= OverlayView { show_hints: false, ..old(self)@ });
            return Response { outcome: Outcome::Continue, redraw: true, cursor_icon: None };
        }
        let double = match self.last_click {
            Some(t) => elapsed(now_ms, t) < DOUBLE_CLICK_MS,
            None => false,
        };
        self.last_click = Some(now_ms);
        assert(self@ =~= OverlayView { last_click: Some(now_ms), ..old(self)@ });
        match self.state {
            OverlayState::Idle => {
                self.press_pos = Some(self.cursor);
                self.snap_at_press = self.snap_target;
                Response { outcome: Outcome::Continue, redraw: false, cursor_icon: None }
            },
            OverlayState::Dragging { .. } => Response {
                outcome: Outcome::Continue,
                redraw: false,
                cursor_icon: None,
            },
            OverlayState::Adjusting { rect, .. } => self.press_adjusting(rect, double, now_ms),
        }
    }

    fn press_adjusting(&mut self, rect: Rect, double: bool, now_ms: u64) -> (r: Response)
        requires
            overlay_ok(old(self)@),
            old(self).state matches OverlayState::Adjusting { rect: r, .. } && r == rect,
        ensures
            (final(self)@, r) == press_adjusting(old(self)@, rect, double, now_ms),
    {
        if double {
            match on_double_click_adjusting(rect, self.cursor) {
                Transition::Confirm(r) => {
                    self.commit_text_edit();
                    return Response { outcome: Outcome::Confirmed(r), redraw: false, cursor_icon: None };
                },
                Transition::Cancel => {
                    return Response { outcome: Outcome::Cancelled, redraw: false, cursor_icon: None };
                },
                Transition::Stay => {},
            }
        }
        proof {
            lemma_layout_fits(rect, self.window_size);
        }
        let tb = Toolbar::layout(rect, self.window_size);
        let hit = tb.hit_with_tool(self.cursor, self.tool);
        proof {
            lemma_layout_hit(&tb, rect, self.window_size, self.cursor, self.tool);
        }
        match hit {
            ToolbarHit::Tool(t) => {
                self.pending_draw = None;
                self.state = OverlayState::Adjusting { rect, edit: None };
                self.tool = t;
                assert(self@ =~= OverlayView {
                    pending: None,
                    state: OverlayState::Adjusting { rect, edit: None },
                    tool: t,
                    ..old(self)@
                });
                Response { outcome: Outcome::Continue, redraw: true, cursor_icon: None }
            },
            ToolbarHit::Undo => {
                proof {
                    lemma_model_undo(self.history@);
                }
                let changed = self.history.undo();
                assert(self@ =~= OverlayView { history: history_undo(old(self)@.history), ..old(self)@ });
                Response { outcome: Outcome::Continue, redraw: changed, cursor_icon: None }
            },
            ToolbarHit::Redo => {
                proof {
                    lemma_model_redo(self.history@);
                }
                let changed = self.history.redo();
                assert(self@ =~= OverlayView { history: history_redo(old(self)@.history), ..old(self)@ });
                Response { outcome: Outcome::Continue, redraw: changed, cursor_icon: None }
            },
            ToolbarHit::Color(c) => {
                self.current_style.color = c;
                assert(self@ =~= OverlayView {
                    style: AnnotationStyle { color: c, ..old(self)@.style },
                    ..old(self)@
                });
                Response { outcome: Outcome::Continue, redraw: true, cursor_icon: None }
            },
            ToolbarHit::Stroke(st) => {
                self.current_style.stroke = st;
                assert(self@ =~= OverlayView {
                    style: AnnotationStyle { stroke: st, ..old(self)@.style },
                    ..old(self)@
                });
                Response { outcome: Outcome::Continue, redraw: true, cursor_icon: None }
            },
            ToolbarHit::Pin => {
                self.commit_text_edit();
                Response { outcome: Outcome::Pinned(rect), redraw: false, cursor_icon: None }
            },
            ToolbarHit::Save => {
                self.commit_text_edit();
                Response { outcome: Outcome::SaveAs(rect), redraw: false, cursor_icon: None }
            },
            ToolbarHit::Nothing => self.press_text_or_zone(rect, now_ms),
        }
    }

    fn press_text_or_zone(&mut self, rect: Rect, now_ms: u64) -> (r: Response)
        requires
            overlay_ok(old(self)@),
            rect_ok(rect),
        ensures
            (final(self)@, r) == press_text_or_zone(old(self)@, rect, now_ms),
    {
        if self.tool == Tool::Text {
            self.commit_text_edit();
            if rect.contains(self.cursor) {
                let fp = self.window_point_to_frame_point(self.cursor);
                self.text_edit = Some(TextEdit::new(fp, now_ms));
                return Response { outcome: Outcome::Continue, redraw: true, cursor_icon: None };
            }
        }
        self.press_zone(rect)
    }

    fn press_zone(&mut self, rect: Rect) -> (r: Response)
        requires
            overlay_ok(old(self)@),
            rect_ok(rect),
        ensures
            (final(self)@, r) == press_zone(old(self)@, rect),
    {
        proof {
            lemma_classify_fits(self.cursor, rect);
        }
        match classify(self.cursor, rect) {
            HitZone::Anchor(a) => {
                self.state = start_resize(rect, a, self.cursor);
                Response { outcome: Outcome::Continue, redraw: true, cursor_icon: None }
            },
            HitZone::Inside => {
                if self.tool.is_drawing() {
                    let fp = self.window_point_to_frame_point(self.cursor);
                    let d = match self.tool {
                        Tool::Pen => PendingDraw::pen(self.current_style, fp),
                        _ => PendingDraw::shape(self.tool, self.current_style, fp, fp),
                    };
                    self.pending_draw = Some(d);
                    assert(self@.pending == press_zone(old(self)@, rect).0.pending);
                    assert(self@ =~= press_zone(old(self)@, rect).0);
                    Response { outcome: Outcome::Continue, redraw: true, cursor_icon: None }
                } else {
                    self.state = start_translate(rect, self.cursor);
                    Response { outcome: Outcome::Continue, redraw: true, cursor_icon: None }
                }
            },
            HitZone::Outside => Response { outcome: Outcome::Continue, redraw: false, cursor_icon: None },
        }
    }

    /// Left button up.
    pub fn handle_left_release(&mut self) -> (r: Response)
        requires
            old(self).wf(),
            event_fits(old(self)@, EventView::LeftReleased),
        ensures
            final(self).wf(),
            (final(self)@, r) == step_left_released(old(self)@),
    {
        proof {
            lemma_released_ok(self@);
        }
        let p = self.pending_draw.take();
        match p {
            Some(pending) => {
                let a = pending.finalize();
                match a {
                    Some(ann) => {
                        proof {
                            lemma_model_push(self.history@, ann);
                        }
                        self.history.push(ann);
                    },
                    None => {},
                }
                assert(self@ =~= step_left_released(old(self)@).0);
                return Response { outcome: Outcome::Continue, redraw: true, cursor_icon: None };
            },
            None => {},
        }
        if self.press_pos.is_some() {
            self.press_pos = None;
            let at_press = self.snap_at_press.take();
            match at_press {
                Some(rect) => {
                    self.state = OverlayState::Adjusting { rect, edit: None };
                    self.snap_target = None;
                    assert(self@ =~= step_left_released(old(self)@).0);
                    return Response { outcome: Outcome::Continue, redraw: true, cursor_icon: None };
                },
                None => {
                    assert(self@ =~= step_left_released(old(self)@).0);
                    return Response { outcome: Outcome::Continue, redraw: false, cursor_icon: None };
                },
            }
        }
        match self.state {
            OverlayState::Dragging { start, end } => {
                let rect = Rect::normalize(start, end);
                if rect.w > 0 && rect.h > 0 {
                    self.state = OverlayState::Adjusting { rect, edit: None };
                } else {
                    self.state = OverlayState::Idle;
                    self.snap_target = None;
                }
                assert(self@ =~= step_left_released(old(self)@).0);
                Response { outcome: Outcome::Continue, redraw: true, cursor_icon: None }
            },
            OverlayState::Adjusting { edit: Some(_), .. } => {
                self.state = commit_edit(self.state);
                assert(self@ =~= step_left_released(old(self)@).0);
                Response { outcome: Outcome::Continue, redraw: true, cursor_icon: None }
            },
            _ => {
                assert(self@ =~= step_left_released(old(self)@).0);
                Response { outcome: Outcome::Continue, redraw: false, cursor_icon: None }
            },
        }
    }

    /// A key press (repeats excluded).
    pub fn handle_key(&mut self, key: KeyInput) -> (r: Response)
        requires
            old(self).wf(),
        ensures
            final(self).wf(),
            (final(self)@, r) == step_key(old(self)@, key@),
    {
        proof {
            lemma_key_ok(self@, key@);
        }
        if self.text_edit.is_some() {
            return self.key_while_editing(key);
        }
        self.key_shortcuts(key)
    }

    fn key_while_editing(&mut self, key: KeyInput) -> (r: Response)
        requires
            overlay_ok(old(self)@),
            old(self).text_edit is Some,
        ensures
            (final(self)@, r) == key_while_editing(old(self)@, old(self)@.text->0, key@),
    {
        match key {
            KeyInput::Enter => {
                if self.modifiers.shift {
                    match &mut self.text_edit {
                        Some(t) => {
                            t.handle_char('\n');
                        },
                        None => {},
                    }
                    assert(self@ =~= key_while_editing(old(self)@, old(self)@.text->0, key@).0);
                } else {
                    self.commit_text_edit();
                }
                Response { outcome: Outcome::Continue, redraw: true, cursor_icon: None }
            },
            KeyInput::Escape => {
                self.text_edit = None;
                assert(self@ =~= key_while_editing(old(self)@, old(self)@.text->0, key@).0);
                Response { outcome: Outcome::Continue, redraw: true, cursor_icon: None }
            },
            KeyInput::Backspace => {
                match &mut self.text_edit {
                    Some(t) => {
                        t.backspace();
                    },
                    None => {},
                }
                assert(self@ =~= key_while_editing(old(self)@, old(self)@.text->0, key@).0);
                Response { outcome: Outcome::Continue, redraw: true, cursor_icon: None }
            },
            KeyInput::Character(s) => {
                let ch = first_char_of(s.as_str());
                if ch == '[' || ch == ']' {
                    self.current_style.stroke = if ch == '[' {
                        self.current_style.stroke.step_down()
                    } else {
                        self.current_style.stroke.step_up()
                    };
                } else {
                    match &mut self.text_edit {
                        Some(t) => {
                            t.handle_str(s.as_str());
                        },
                        None => {},
                    }
                }
                assert(self@ =~= key_while_editing(old(self)@, old(self)@.text->0, key@).0);
                Response { outcome: Outcome::Continue, redraw: true, cursor_icon: None }
            },
            KeyInput::Other => Response { outcome: Outcome::Continue, redraw: false, cursor_icon: None },
        }
    }

    fn key_shortcuts(&mut self, key: KeyInput) -> (r: Response)
        requires
            overlay_ok(old(self)@),
            old(self).text_edit is None,
        ensures
            (final(self)@, r) == key_shortcuts(old(self)@, key@),
    {
        let adjusting = match self.state {
            OverlayState::Adjusting { .. } => true,
            _ => false,
        };
        let plain = adjusting && !self.modifiers.super_key;
        if let KeyInput::Character(s) = &key {
            let ch = to_ascii_lowercase(first_char_of(s.as_str()));
            if plain && ch == 'h' {
                self.show_hints = !self.show_hints;
                assert(self@ =~= key_shortcuts(old(self)@, key@).0);
                return Response { outcome: Outcome::Continue, redraw: true, cursor_icon: None };
            }
            if (self.modifiers.super_key || self.modifiers.ctrl) && ch == 'z' {
                let changed = if self.modifiers.shift {
                    proof {
                        lemma_model_redo(self.history@);
                    }
                    self.history.redo()
                } else {
                    proof {
                        lemma_model_undo(self.history@);
                    }
                    self.history.undo()
                };
                assert(self@ =~= key_shortcuts(old(self)@, key@).0);
                return Response { outcome: Outcome::Continue, redraw: changed, cursor_icon: None };
            }
            if plain {
                if let Some(t) = tool_for_char(ch) {
                    self.pending_draw = None;
                    if let OverlayState::Adjusting { rect, .. } = self.state {
                        self.state = OverlayState::Adjusting { rect, edit: None };
                    }
                    self.tool = t;
                    assert(self@ =~= key_shortcuts(old(self)@, key@).0);
                    return Response { outcome: Outcome::Continue, redraw: true, cursor_icon: None };
                }
                if let Some(c) = key_to_color(ch) {
                    self.current_style.color = c;
                    assert(self@ =~= key_shortcuts(old(self)@, key@).0);
                    return Response { outcome: Outcome::Continue, redraw: true, cursor_icon: None };
                }
                if ch == '[' {
                    self.current_style.stroke = self.current_style.stroke.step_down();
                    assert(self@ =~= key_shortcuts(old(self)@, key@).0);
                    return Response { outcome: Outcome::Continue, redraw: true, cursor_icon: None };
                }
                if ch == ']' {
                    self.current_style.stroke = self.current_style.stroke.step_up();
                    assert(self@ =~= key_shortcuts(old(self)@, key@).0);
                    return Response { outcome: Outcome::Continue, redraw: true, cursor_icon: None };
                }
            }
        }
        self.key_fallback(&key)
    }

    fn key_fallback(&mut self, key: &KeyInput) -> (r: Response)
        requires
            overlay_ok(old(self)@),
        ensures
            (final(self)@, r) == key_fallback(old(self)@, key@),
    {
        match key {
            KeyInput::Escape => {
                if self.show_hints {
                    self.show_hints = false;
                    assert(self@ =~= key_fallback(old(self)@, key@).0);
                    return Response { outcome: Outcome::Continue, redraw: true, cursor_icon: None };
                }
                match state::on_escape(self.state) {
                    Transition::Cancel => Response {
                        outcome: Outcome::Cancelled,
                        redraw: false,
                        cursor_icon: None,
                    },
                    _ => Response { outcome: Outcome::Continue, redraw: false, cursor_icon: None },
                }
            },
            KeyInput::Enter => match on_enter(self.state) {
                Transition::Confirm(r) => Response {
                    outcome: Outcome::Confirmed(r),
                    redraw: false,
                    cursor_icon: None,
                },
                _ => Response { outcome: Outcome::Continue, redraw: false, cursor_icon: None },
            },
            _ => Response { outcome: Outcome::Continue, redraw: false, cursor_icon: None },
        }
    }

    /// The overlay can take `event` without an `i32` overflow (see
    /// `event_fits`).
    pub fn can_handle(&self, event: &OverlayEvent) -> (b: bool)
        ensures
            b == event_fits(self@, event@),
    {
        match event {
            OverlayEvent::LeftReleased => match &self.pending_draw {
                Some(PendingDraw::Shape { tool, from_frame, to_frame, .. }) => {
                    let shaped = match tool {
                        Tool::Rect | Tool::Ellipse | Tool::Mosaic => true,
                        _ => false,
                    };
                    let dx = from_frame.0 as i64 - to_frame.0 as i64;
                    let dy = from_frame.1 as i64 - to_frame.1 as i64;
                    !shaped || (i32::MIN as i64) < dx && dx <= i32::MAX as i64 && (i32::MIN as i64)
                        < dy && dy <= i32::MAX as i64
                },
                _ => true,
            },
            OverlayEvent::Resized { width, height } => *width <= i32::MAX as u32 && *height
                <= i32::MAX as u32,
            _ => true,
        }
    }

    /// Apply one event; the response says what the owner should do.
    pub fn handle_event(&mut self, event: OverlayEvent) -> (r: Response)
        requires
            old(self).wf(),
            event_fits(old(self)@, event@),
        ensures
            final(self).wf(),
            (final(self)@, r) == step_event(old(self)@, event@),
    {
        match event {
            OverlayEvent::CursorMoved { x, y, now_ms } => self.handle_cursor_moved((x, y), now_ms),
            OverlayEvent::LeftPressed { now_ms } => self.handle_left_press(now_ms),
            OverlayEvent::LeftReleased => self.handle_left_release(),
            OverlayEvent::KeyPressed(k) => self.handle_key(k),
            OverlayEvent::ModifiersChanged(m) => {
                self.modifiers = m;
                assert(self@ =~= step_event(old(self)@, event@).0);
                Response { outcome: Outcome::Continue, redraw: false, cursor_icon: None }
            },
            OverlayEvent::ImeCommit(s) => {
                let has_text = self.text_edit.is_some();
                match &mut self.text_edit {
                    Some(t) => {
                        t.buffer.append(s.as_str());
                        t.preedit = String::new();
                    },
                    None => {},
                }
                assert(self@ =~= step_event(old(self)@, event@).0);
                Response { outcome: Outcome::Continue, redraw: has_text, cursor_icon: None }
            },
            OverlayEvent::ImePreedit(s) => {
                let has_text = self.text_edit.is_some();
                match &mut self.text_edit {
                    Some(t) => {
                        t.preedit = s;
                    },
                    None => {},
                }
                assert(self@ =~= step_event(old(self)@, event@).0);
                Response { outcome: Outcome::Continue, redraw: has_text, cursor_icon: None }
            },
            OverlayEvent::CursorLeft => {
                if self.snap_target.is_some() {
                    self.snap_target = None;
                    assert(self@ =~= step_event(old(self)@, event@).0);
                    Response { outcome: Outcome::Continue, redraw: true, cursor_icon: None }
                } else {
                    Response { outcome: Outcome::Continue, redraw: false, cursor_icon: None }
                }
            },
            OverlayEvent::Resized { width, height } => {
                self.window_size = (width, height);
                assert(self@ =~= step_event(old(self)@, event@).0);
                Response { outcome: Outcome::Continue, redraw: false, cursor_icon: None }
            },
            OverlayEvent::CloseRequested => Response {
                outcome: Outcome::Cancelled,
                redraw: false,
                cursor_icon: None,
            },
            OverlayEvent::Other => Response { outcome: Outcome::Continue, redraw: false, cursor_icon: None },
        }
    }

    /// The selection in window pixels, clipped to the window; `None` when
    /// Idle or when nothing of it is inside the window.
    pub fn current_selection_rect(&self) -> (r: Option<Rect>)
        requires
            self.wf(),
        ensures
            r == spec_current_selection(self@),
    {
        let rect = match self.state {
            OverlayState::Idle => {
                return None;
            },
            OverlayState::Dragging { start, end } => Rect::normalize(start, end),
            OverlayState::Adjusting { rect, .. } => rect,
        };
        let c = rect.clamp_to(self.window_size);
        if c.w == 0 || c.h == 0 {
            None
        } else {
            Some(c)
        }
    }

    /// The selection as unsigned (x, y, w, h).
    pub fn current_selection_rect_window(&self) -> (r: Option<(u32, u32, u32, u32)>)
        requires
            self.wf(),
        ensures
            r == match spec_current_selection(self@) {
                Some(rect) => Some(rect_as_u32(rect)),
                None => None,
            },
    {
        match self.current_selection_rect() {
            Some(rect) => Some(rect.as_tuple_u32()),
            None => None,
        }
    }

    /// A window rectangle in frame pixels: clipped to the window, each
    /// coordinate scaled by frame size over window size (rounded down), and
    /// the size at least one pixel.
    pub fn window_rect_to_frame_rect(&self, rect: Rect) -> (r: (u32, u32, u32, u32))
        requires
            self.wf(),
            rect.edges_fit(),
        ensures
            r == spec_window_rect_to_frame_rect(self.window_size, self.frame_size, rect),
    {
        let ww: u32 = if self.window_size.0 >= 1 { self.window_size.0 } else { 1 };
        let wh: u32 = if self.window_size.1 >= 1 { self.window_size.1 } else { 1 };
        let clamped = rect.clamp_to((ww, wh));
        let (x, y, w, h) = clamped.as_tuple_u32();
        let fx = scale_down(x, self.frame_size.0, ww);
        let fy = scale_down(y, self.frame_size.1, wh);
        let fw2 = scale_down(w, self.frame_size.0, ww);
        let fh2 = scale_down(h, self.frame_size.1, wh);
        (fx, fy, if fw2 >= 1 { fw2 } else { 1 }, if fh2 >= 1 { fh2 } else { 1 })
    }

    /// What a redraw paints, decided from the state.
    pub fn redraw_plan(&self) -> (p: RedrawPlan)
        requires
            self.wf(),
        ensures
            p == spec_redraw_plan(self@),
    {
        let ww: u32 = if self.window_size.0 >= 1 { self.window_size.0 } else { 1 };
        let wh: u32 = if self.window_size.1 >= 1 { self.window_size.1 } else { 1 };
        let current = self.current_selection_rect();
        let idle = match self.state {
            OverlayState::Idle => true,
            _ => false,
        };
        let (selection, outline_color) = match (current, idle, self.snap_target) {
            (None, true, Some(snap)) => {
                let clamped = snap.clamp_to((ww, wh));
                if clamped.w == 0 || clamped.h == 0 {
                    (None, OUTLINE_WHITE)
                } else {
                    (Some(clamped), SNAP_OUTLINE_BLUE)
                }
            },
            (existing, _, _) => (existing, OUTLINE_WHITE),
        };
        let adjusting = match self.state {
            OverlayState::Adjusting { .. } => true,
            _ => false,
        };
        let dragging = match self.state {
            OverlayState::Dragging { .. } => true,
            _ => false,
        };
        RedrawPlan {
            selection,
            outline_color,
            show_annotations: adjusting,
            show_anchors: adjusting && self.tool == Tool::Move && selection.is_some(),
            show_toolbar: adjusting && selection.is_some(),
            show_magnifier: idle || dragging,
            show_label: (dragging || adjusting) && selection.is_some(),
        }
    }

    /// The toolbar a redraw shows: laid out under the plan's selection in
    /// the window, when the plan shows a toolbar.
    pub fn redraw_toolbar(&self) -> (t: Option<Toolbar>)
        requires
            self.wf(),
        ensures
            spec_redraw_plan(self@).show_toolbar ==> (t matches Some(tb) && is_layout(
                &tb,
                spec_redraw_plan(self@).selection->0,
                (at_least_one(self.window_size.0), at_least_one(self.window_size.1)),
            ) && tb.buttons_fit() && tb.badges_fit()),
            !spec_redraw_plan(self@).show_toolbar ==> t is None,
    {
        let plan = self.redraw_plan();
        let ww: u32 = if self.window_size.0 >= 1 { self.window_size.0 } else { 1 };
        let wh: u32 = if self.window_size.1 >= 1 { self.window_size.1 } else { 1 };
        if !plan.show_toolbar {
            return None;
        }
        match plan.selection {
            Some(sel) => {
                proof {
                    lemma_layout_fits(sel, (ww, wh));
                }
                let tb = Toolbar::layout(sel, (ww, wh));
                proof {
                    lemma_layout_badges_fit(&tb, sel, (ww, wh));
                }
                Some(tb)
            },
            None => None,
        }
    }
}

} // verus!
