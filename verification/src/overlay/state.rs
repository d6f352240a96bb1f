//! Selection rectangle geometry and the pure transitions of the overlay's
//! selection state machine.

use vstd::prelude::*;

verus! {

/// Integer halving rounded toward zero, as `i32` division does.
pub open spec fn half_toward_zero(v: int) -> int {
    if v >= 0 { v / 2 } else { -((-v) / 2) }
}


/// True when `v` is representable as an `i32`.
pub open spec fn in_i32(v: int) -> bool {
    i32::MIN <= v <= i32::MAX
}

pub open spec fn abs(v: int) -> int {
    if v < 0 { -v } else { v }
}

pub open spec fn min(a: int, b: int) -> int {
    if a <= b { a } else { b }
}

pub open spec fn max(a: int, b: int) -> int {
    if a >= b { a } else { b }
}

pub open spec fn clamp(v: int, lo: int, hi: int) -> int {
    if v < lo { lo } else if v > hi { hi } else { v }
}

/// The value of `v as i32`: values above `i32::MAX` wrap around.
pub open spec fn as_i32(v: u32) -> int {
    if v <= i32::MAX { v as int } else { v - 0x1_0000_0000 }
}

/// `v as i32`, with its wrap-around stated.
pub fn u32_as_i32(v: u32) -> (r: i32)
    ensures
        r == as_i32(v),
{
    let r = #[verifier::truncate] (v as i32);
    assert(v <= 0x7fff_ffff ==> (#[verifier::truncate] (v as i32)) == v) by (bit_vector);
    assert(v > 0x7fff_ffff ==> (#[verifier::truncate] (v as i32)) == v - 0x1_0000_0000) by (bit_vector);
    r
}

/// `v` limited to `[lo, hi]`.
pub fn clamp_i32(v: i32, lo: i32, hi: i32) -> (r: i32)
    requires
        lo <= hi,
    ensures
        r == clamp(v as int, lo as int, hi as int),
{
    if v < lo { lo } else if v > hi { hi } else { v }
}

pub fn max_i32(a: i32, b: i32) -> (r: i32)
    ensures
        r == max(a as int, b as int),
{
    if a >= b { a } else { b }
}

pub fn min_i32(a: i32, b: i32) -> (r: i32)
    ensures
        r == min(a as int, b as int),
{
    if a <= b { a } else { b }
}

/// A rectangle in window pixels: top-left corner plus width and height.
#[derive(Debug, Clone, Copy, PartialEq, Eq, Structural)]
pub struct Rect {
    pub x: i32,
    pub y: i32,
    pub w: i32,
    pub h: i32,
}

/// The eight resize handles on a selection's border.
#[derive(Debug, Clone, Copy, PartialEq, Eq, Structural)]
pub enum Anchor { TL, T, TR, R, BR, B, BL, L }

/// An in-progress edit of an adjusted selection.
#[derive(Debug, Clone, Copy, PartialEq, Eq)]
pub enum Edit {
    Resize { anchor: Anchor, origin: Rect, from: (i32, i32) },
    Translate { origin: Rect, from: (i32, i32) },
}

/// The selection state of the overlay.
#[derive(Debug, Clone, Copy, PartialEq, Eq)]
pub enum OverlayState {
    Idle,
    Dragging { start: (i32, i32), end: (i32, i32) },
    Adjusting { rect: Rect, edit: Option<Edit> },
}

/// What a confirm/cancel helper asks the caller to do.
#[derive(Debug, Clone, Copy, PartialEq, Eq, Structural)]
pub enum Transition {
    Stay,
    Confirm(Rect),
    Cancel,
}

impl Rect {
    /// Right edge (exclusive), as a mathematical integer.
    pub open spec fn right(self) -> int {
        self.x + self.w
    }

    /// Bottom edge (exclusive), as a mathematical integer.
    pub open spec fn bottom(self) -> int {
        self.y + self.h
    }

    /// The right and bottom edges are representable as `i32`.
    pub open spec fn edges_fit(self) -> bool {
        in_i32(self.right()) && in_i32(self.bottom())
    }

    pub open spec fn has_area(self) -> bool {
        self.w > 0 && self.h > 0
    }

    pub open spec fn spec_contains(self, p: (i32, i32)) -> bool {
        p.0 >= self.x && p.0 < self.right() && p.1 >= self.y && p.1 < self.bottom()
    }

    /// The rectangle spanned by two corner points.
    pub open spec fn spec_normalize(a: (i32, i32), b: (i32, i32)) -> Rect {
        Rect {
            x: min(a.0 as int, b.0 as int) as i32,
            y: min(a.1 as int, b.1 as int) as i32,
            w: abs(a.0 - b.0) as i32,
            h: abs(a.1 - b.1) as i32,
        }
    }

    /// Both corner differences are representable (the subtraction and its
    /// absolute value do not overflow).
    pub open spec fn normalize_fits(a: (i32, i32), b: (i32, i32)) -> bool {
        i32::MIN < a.0 - b.0 <= i32::MAX && i32::MIN < a.1 - b.1 <= i32::MAX
    }

    pub open spec fn spec_clamp_to(self, bounds: (u32, u32)) -> Rect {
        let x = clamp(self.x as int, 0, bounds.0 as int);
        let y = clamp(self.y as int, 0, bounds.1 as int);
        let x2 = clamp(self.right(), 0, bounds.0 as int);
        let y2 = clamp(self.bottom(), 0, bounds.1 as int);
        Rect { x: x as i32, y: y as i32, w: max(x2 - x, 0) as i32, h: max(y2 - y, 0) as i32 }
    }

    pub open spec fn spec_translate(self, dx: i32, dy: i32) -> Rect {
        Rect { x: (self.x + dx) as i32, y: (self.y + dy) as i32, w: self.w, h: self.h }
    }

    /// The unclamped edge arithmetic of a resize: (x, y, w, h) after moving
    /// the edges that `anchor` controls by (dx, dy).
    pub open spec fn resize_raw(self, anchor: Anchor, dx: int, dy: int) -> (int, int, int, int) {
        let (x, y, w, h) = (self.x as int, self.y as int, self.w as int, self.h as int);
        match anchor {
            Anchor::TL => (x + dx, y + dy, w - dx, h - dy),
            Anchor::T => (x, y + dy, w, h - dy),
            Anchor::TR => (x, y + dy, w + dx, h - dy),
            Anchor::R => (x, y, w + dx, h),
            Anchor::BR => (x, y, w + dx, h + dy),
            Anchor::B => (x, y, w, h + dy),
            Anchor::BL => (x + dx, y, w - dx, h + dy),
            Anchor::L => (x + dx, y, w - dx, h),
        }
    }

    pub open spec fn resize_fits(self, anchor: Anchor, dx: i32, dy: i32) -> bool {
        let r = self.resize_raw(anchor, dx as int, dy as int);
        in_i32(r.0) && in_i32(r.1) && in_i32(r.2) && in_i32(r.3)
    }

    pub open spec fn spec_resize_from_anchor(self, anchor: Anchor, dx: i32, dy: i32) -> Rect {
        let r = self.resize_raw(anchor, dx as int, dy as int);
        Rect { x: r.0 as i32, y: r.1 as i32, w: max(r.2, 1) as i32, h: max(r.3, 1) as i32 }
    }

    /// Rectangle spanned by the two corner points `a` and `b`.
    pub fn normalize(a: (i32, i32), b: (i32, i32)) -> (r: Rect)
        requires
            Rect::normalize_fits(a, b),
        ensures
            r == Rect::spec_normalize(a, b),
            r.w >= 0 && r.h >= 0,
    {
        let (ax, ay) = a;
        let (bx, by) = b;
        let x = if ax <= bx { ax } else { bx };
        let y = if ay <= by { ay } else { by };
        let w = if ax >= bx { ax - bx } else { bx - ax };
        let h = if ay >= by { ay - by } else { by - ay };
        Rect { x, y, w, h }
    }

    /// Half-open containment: the left/top edges are inside, the
    /// right/bottom edges are not.
    pub fn contains(&self, p: (i32, i32)) -> (b: bool)
        requires
            self.edges_fit(),
        ensures
            b == self.spec_contains(p),
    {
        p.0 >= self.x && p.0 < self.x + self.w && p.1 >= self.y && p.1 < self.y + self.h
    }

    /// Intersect with the window `[0, bounds.0] x [0, bounds.1]`.
    pub fn clamp_to(&self, bounds: (u32, u32)) -> (r: Rect)
        requires
            self.edges_fit(),
            bounds.0 <= i32::MAX,
            bounds.1 <= i32::MAX,
        ensures
            r == self.spec_clamp_to(bounds),
            0 <= r.x <= bounds.0,
            0 <= r.y <= bounds.1,
            r.w >= 0 && r.h >= 0,
            r.x + r.w <= bounds.0,
            r.y + r.h <= bounds.1,
    {
        let bw = bounds.0 as i32;
        let bh = bounds.1 as i32;
        let x = clamp_i32(self.x, 0, bw);
        let y = clamp_i32(self.y, 0, bh);
        let x2 = clamp_i32(self.x + self.w, 0, bw);
        let y2 = clamp_i32(self.y + self.h, 0, bh);
        Rect { x, y, w: max_i32(x2 - x, 0), h: max_i32(y2 - y, 0) }
    }

    pub fn translate(&self, dx: i32, dy: i32) -> (r: Rect)
        requires
            in_i32(self.x + dx),
            in_i32(self.y + dy),
        ensures
            r == self.spec_translate(dx, dy),
    {
        Rect { x: self.x + dx, y: self.y + dy, w: self.w, h: self.h }
    }

    /// Move the edges controlled by `anchor` by (dx, dy); the result is at
    /// least one pixel wide and tall.
    pub fn resize_from_anchor(&self, anchor: Anchor, dx: i32, dy: i32) -> (r: Rect)
        requires
            self.resize_fits(anchor, dx, dy),
        ensures
            r == self.spec_resize_from_anchor(anchor, dx, dy),
            r.w >= 1 && r.h >= 1,
    {
        let mut x = self.x;
        let mut y = self.y;
        let mut w = self.w;
        let mut h = self.h;
        match anchor {
            Anchor::TL => { x += dx; y += dy; w -= dx; h -= dy; }
            Anchor::T => { y += dy; h -= dy; }
            Anchor::TR => { y += dy; w += dx; h -= dy; }
            Anchor::R => { w += dx; }
            Anchor::BR => { w += dx; h += dy; }
            Anchor::B => { h += dy; }
            Anchor::BL => { x += dx; w -= dx; h += dy; }
            Anchor::L => { x += dx; w -= dx; }
        }
        if w < 1 { w = 1; }
        if h < 1 { h = 1; }
        Rect { x, y, w, h }
    }

    /// The rectangle as unsigned (x, y, w, h), negative components read as 0.
    pub fn as_tuple_u32(&self) -> (t: (u32, u32, u32, u32))
        ensures
            t.0 == max(self.x as int, 0),
            t.1 == max(self.y as int, 0),
            t.2 == max(self.w as int, 0),
            t.3 == max(self.h as int, 0),
    {
        (
            if self.x > 0 { self.x as u32 } else { 0 },
            if self.y > 0 { self.y as u32 } else { 0 },
            if self.w > 0 { self.w as u32 } else { 0 },
            if self.h > 0 { self.h as u32 } else { 0 },
        )
    }
}

/// Mouse press while idle: start a drag at the cursor.
pub fn on_mouse_down_idle(cursor: (i32, i32)) -> (s: OverlayState)
    ensures
        s == (OverlayState::Dragging { start: cursor, end: cursor }),
{
    OverlayState::Dragging { start: cursor, end: cursor }
}

/// Cursor motion while dragging: the drag end follows the cursor.
pub fn on_mouse_move_dragging(start: (i32, i32), cursor: (i32, i32)) -> (s: OverlayState)
    ensures
        s == (OverlayState::Dragging { start, end: cursor }),
{
    OverlayState::Dragging { start, end: cursor }
}

/// The outcome of Enter in a given state.
pub open spec fn spec_on_enter(current: OverlayState) -> Transition {
    match current {
        OverlayState::Idle => Transition::Stay,
        OverlayState::Dragging { start, end } => {
            let r = Rect::spec_normalize(start, end);
            if r.has_area() { Transition::Confirm(r) } else { Transition::Stay }
        },
        OverlayState::Adjusting { rect, .. } => {
            if rect.has_area() { Transition::Confirm(rect) } else { Transition::Stay }
        },
    }
}

pub open spec fn enter_fits(current: OverlayState) -> bool {
    match current {
        OverlayState::Dragging { start, end } => Rect::normalize_fits(start, end),
        _ => true,
    }
}

/// Enter key: confirm if the current selection has an area, otherwise stay.
pub fn on_enter(current: OverlayState) -> (t: Transition)
    requires
        enter_fits(current),
    ensures
        t == spec_on_enter(current),
        t matches Transition::Confirm(r) ==> r.has_area(),
        t !is Cancel,
{
    match current {
        OverlayState::Idle => Transition::Stay,
        OverlayState::Dragging { start, end } => {
            let r = Rect::normalize(start, end);
            if r.w > 0 && r.h > 0 { Transition::Confirm(r) } else { Transition::Stay }
        },
        OverlayState::Adjusting { rect, .. } => {
            if rect.w > 0 && rect.h > 0 { Transition::Confirm(rect) } else { Transition::Stay }
        },
    }
}

/// Escape cancels from every state.
pub fn on_escape(_current: OverlayState) -> (t: Transition)
    ensures
        t == Transition::Cancel,
{
    Transition::Cancel
}

/// Double-click while adjusting: confirm only when the click falls inside a
/// selection that has an area.
pub fn on_double_click_adjusting(rect: Rect, cursor: (i32, i32)) -> (t: Transition)
    requires
        rect.edges_fit(),
    ensures
        t == (if rect.spec_contains(cursor) && rect.has_area() {
            Transition::Confirm(rect)
        } else {
            Transition::Stay
        }),
{
    if rect.contains(cursor) && rect.w > 0 && rect.h > 0 {
        Transition::Confirm(rect)
    } else {
        Transition::Stay
    }
}

/// Cursor positions are taken up to this distance (2^28) from the window
/// origin on each axis: an eighth of the `i32` range, so that the travel
/// between two positions, and a selection's edges and anchor centres moved
/// by it, stay representable in the `i32` arithmetic of the selection.
pub const CURSOR_LIMIT: i32 = 268435456;

/// Selections keep their corner within this distance (2^28) of the window
/// origin and their width and height below twice it, for the same reason.
pub const RECT_LIMIT: i32 = 268435456;

pub open spec fn point_ok(p: (i32, i32)) -> bool {
    -CURSOR_LIMIT <= p.0 <= CURSOR_LIMIT && -CURSOR_LIMIT <= p.1 <= CURSOR_LIMIT
}

pub open spec fn rect_ok(r: Rect) -> bool {
    &&& -RECT_LIMIT <= r.x <= RECT_LIMIT && -RECT_LIMIT <= r.y <= RECT_LIMIT
    &&& 0 <= r.w <= 2 * RECT_LIMIT && 0 <= r.h <= 2 * RECT_LIMIT
}

pub fn rect_within_limits(r: Rect) -> (b: bool)
    ensures
        b == rect_ok(r),
{
    -RECT_LIMIT <= r.x && r.x <= RECT_LIMIT && -RECT_LIMIT <= r.y && r.y <= RECT_LIMIT && 0 <= r.w
        && r.w <= 2 * RECT_LIMIT && 0 <= r.h && r.h <= 2 * RECT_LIMIT
}

pub open spec fn edit_ok(e: Edit) -> bool {
    match e {
        Edit::Resize { origin, from, .. } => rect_ok(origin) && point_ok(from),
        Edit::Translate { origin, from } => rect_ok(origin) && point_ok(from),
    }
}

/// Every point and rectangle in the state lies within the overlay's limits.
pub open spec fn state_ok(s: OverlayState) -> bool {
    match s {
        OverlayState::Idle => true,
        OverlayState::Dragging { start, end } => point_ok(start) && point_ok(end),
        OverlayState::Adjusting { rect, edit } => rect_ok(rect) && match edit {
            Some(e) => edit_ok(e),
            None => true,
        },
    }
}

/// Press on an anchor: start resizing `rect` from that anchor.
pub fn start_resize(rect: Rect, anchor: Anchor, cursor: (i32, i32)) -> (s: OverlayState)
    ensures
        s == (OverlayState::Adjusting {
            rect,
            edit: Some(Edit::Resize { anchor, origin: rect, from: cursor }),
        }),
{
    OverlayState::Adjusting { rect, edit: Some(Edit::Resize { anchor, origin: rect, from: cursor }) }
}

/// Press inside the selection with the Move tool: start moving it.
pub fn start_translate(rect: Rect, cursor: (i32, i32)) -> (s: OverlayState)
    ensures
        s == (OverlayState::Adjusting {
            rect,
            edit: Some(Edit::Translate { origin: rect, from: cursor }),
        }),
{
    OverlayState::Adjusting { rect, edit: Some(Edit::Translate { origin: rect, from: cursor }) }
}

/// The state after the cursor moves to `cursor` during an edit: the
/// selection is the edit's original rectangle resized or moved by the
/// cursor's travel since the press. A result outside the overlay's limits
/// leaves the state as it was.
pub open spec fn spec_update_edit(s: OverlayState, cursor: (i32, i32)) -> OverlayState {
    match s {
        OverlayState::Adjusting { rect, edit: Some(e) } => {
            let r = match e {
                Edit::Resize { anchor, origin, from } => origin.spec_resize_from_anchor(
                    anchor,
                    (cursor.0 - from.0) as i32,
                    (cursor.1 - from.1) as i32,
                ),
                Edit::Translate { origin, from } => origin.spec_translate(
                    (cursor.0 - from.0) as i32,
                    (cursor.1 - from.1) as i32,
                ),
            };
            if rect_ok(r) {
                OverlayState::Adjusting { rect: r, edit: Some(e) }
            } else {
                s
            }
        },
        _ => s,
    }
}

/// Cursor motion during a resize or move of the selection.
pub fn update_edit(s: OverlayState, cursor: (i32, i32)) -> (r: OverlayState)
    requires
        state_ok(s),
        point_ok(cursor),
    ensures
        r == spec_update_edit(s, cursor),
        state_ok(r),
{
    match s {
        OverlayState::Adjusting { rect, edit: Some(e) } => {
            let moved = match e {
                Edit::Resize { anchor, origin, from } => origin.resize_from_anchor(
                    anchor,
                    cursor.0 - from.0,
                    cursor.1 - from.1,
                ),
                Edit::Translate { origin, from } => origin.translate(
                    cursor.0 - from.0,
                    cursor.1 - from.1,
                ),
            };
            if rect_within_limits(moved) {
                OverlayState::Adjusting { rect: moved, edit: Some(e) }
            } else {
                s
            }
        },
        _ => s,
    }
}

/// Release after a resize or move: keep the rectangle, end the edit.
pub open spec fn spec_commit_edit(s: OverlayState) -> OverlayState {
    match s {
        OverlayState::Adjusting { rect, .. } => OverlayState::Adjusting { rect, edit: None },
        _ => s,
    }
}

pub fn commit_edit(s: OverlayState) -> (r: OverlayState)
    ensures
        r == spec_commit_edit(s),
{
    match s {
        OverlayState::Adjusting { rect, .. } => OverlayState::Adjusting { rect, edit: None },
        _ => s,
    }
}

/// The anchor drags the left edge.
pub open spec fn moves_left(a: Anchor) -> bool {
    a == Anchor::TL || a == Anchor::L || a == Anchor::BL
}

/// The anchor drags the right edge.
pub open spec fn moves_right(a: Anchor) -> bool {
    a == Anchor::TR || a == Anchor::R || a == Anchor::BR
}

/// The anchor drags the top edge.
pub open spec fn moves_top(a: Anchor) -> bool {
    a == Anchor::TL || a == Anchor::T || a == Anchor::TR
}

/// The anchor drags the bottom edge.
pub open spec fn moves_bottom(a: Anchor) -> bool {
    a == Anchor::BL || a == Anchor::B || a == Anchor::BR
}

/// Resizing from an anchor moves exactly the edges that anchor holds, by
/// the cursor's travel (dx for a left or right edge, dy for a top or bottom
/// edge), and keeps the others, when neither side is pushed below one
/// pixel; the result is always at least one pixel each way.
pub proof fn lemma_resize_moves_only_dragged_edges(r: Rect, a: Anchor, dx: i32, dy: i32)
    requires
        r.resize_fits(a, dx, dy),
        r.resize_raw(a, dx as int, dy as int).2 >= 1,
        r.resize_raw(a, dx as int, dy as int).3 >= 1,
    ensures
        ({
            let n = r.spec_resize_from_anchor(a, dx, dy);
            &&& n.w >= 1 && n.h >= 1
            &&& moves_left(a) ==> n.x == r.x + dx && n.x + n.w == r.x + r.w
            &&& moves_right(a) ==> n.x == r.x && n.x + n.w == r.x + r.w + dx
            &&& !moves_left(a) && !moves_right(a) ==> n.x == r.x && n.w == r.w
            &&& moves_top(a) ==> n.y == r.y + dy && n.y + n.h == r.y + r.h
            &&& moves_bottom(a) ==> n.y == r.y && n.y + n.h == r.y + r.h + dy
            &&& !moves_top(a) && !moves_bottom(a) ==> n.y == r.y && n.h == r.h
        }),
{
}

/// The rectangle spanned by two points does not depend on their order.
pub proof fn lemma_normalize_symmetric(a: (i32, i32), b: (i32, i32))
    ensures
        Rect::spec_normalize(a, b) == Rect::spec_normalize(b, a),
{
}

/// Translating by (dx, dy) and then by (-dx, -dy) gives back the rectangle.
pub proof fn lemma_translate_round_trip(r: Rect, dx: i32, dy: i32)
    requires
        in_i32(r.x + dx),
        in_i32(r.y + dy),
        dx != i32::MIN,
        dy != i32::MIN,
    ensures
        r.spec_translate(dx, dy).spec_translate((-dx) as i32, (-dy) as i32) == r,
{
}

/// Clamping a rectangle that already lies in the bounds leaves it unchanged,
/// so clamping twice is the same as clamping once.
pub proof fn lemma_clamp_idempotent(r: Rect, bounds: (u32, u32))
    requires
        r.edges_fit(),
        bounds.0 <= i32::MAX,
        bounds.1 <= i32::MAX,
    ensures
        r.spec_clamp_to(bounds).edges_fit(),
        r.spec_clamp_to(bounds).spec_clamp_to(bounds) == r.spec_clamp_to(bounds),
{
}

/// A confirmed Enter always carries the normalized drag rectangle, and only
/// a rectangle with an area is ever confirmed.
pub proof fn lemma_enter_confirms_area(current: OverlayState)
    ensures
        spec_on_enter(current) matches Transition::Confirm(r) ==> r.has_area(),
        spec_on_enter(current) !is Cancel,
{
}

} // verus!
