//! Classify a cursor position relative to an adjusting-state selection.

use vstd::prelude::*;

use super::state::{Anchor, Rect, abs, in_i32, half_toward_zero};

verus! {

/// Side length of a drawn anchor handle.
pub const ANCHOR_SIZE: i32 = 6;

/// Extra padding around each anchor that still counts as a hit: the hit box
/// is 12x12 around the anchor point.
pub const ANCHOR_HIT_PAD: i32 = 3;

/// Where a cursor is relative to the selection.
#[derive(Debug, Clone, Copy, PartialEq, Eq, Structural)]
pub enum HitZone {
    Anchor(Anchor),
    Inside,
    Outside,
}

/// The cursor shape shown for a hit zone.
#[derive(Debug, Clone, Copy, PartialEq, Eq, Structural)]
pub enum CursorShape {
    NwseResize,
    NeswResize,
    NsResize,
    EwResize,
    Move,
    Default,
}

/// The anchors in hit-test priority order.
pub open spec fn all_anchors() -> Seq<Anchor> {
    seq![Anchor::TL, Anchor::T, Anchor::TR, Anchor::R, Anchor::BR, Anchor::B, Anchor::BL, Anchor::L]
}

/// The anchor centers of `rect` can be computed without overflow.
pub open spec fn centers_fit(rect: Rect) -> bool {
    &&& in_i32(rect.x + rect.w) && in_i32(rect.x + rect.w - 1)
    &&& in_i32(rect.y + rect.h) && in_i32(rect.y + rect.h - 1)
}

pub open spec fn spec_anchor_center(rect: Rect, anchor: Anchor) -> (int, int) {
    let (l, t) = (rect.x as int, rect.y as int);
    let (r, b) = (rect.x + rect.w - 1, rect.y + rect.h - 1);
    let (cx, cy) = (rect.x + half_toward_zero(rect.w as int), rect.y + half_toward_zero(rect.h as int));
    match anchor {
        Anchor::TL => (l, t),
        Anchor::T => (cx, t),
        Anchor::TR => (r, t),
        Anchor::R => (r, cy),
        Anchor::BR => (r, b),
        Anchor::B => (cx, b),
        Anchor::BL => (l, b),
        Anchor::L => (l, cy),
    }
}

/// Center of each anchor: the four corners (right/bottom corners are the
/// last pixel inside) and the four edge midpoints.
pub fn anchor_center(rect: Rect, anchor: Anchor) -> (c: (i32, i32))
    requires
        centers_fit(rect),
    ensures
        c.0 == spec_anchor_center(rect, anchor).0,
        c.1 == spec_anchor_center(rect, anchor).1,
{
    let l = rect.x;
    let t = rect.y;
    let r = rect.x + rect.w - 1;
    let b = rect.y + rect.h - 1;
    let cx = rect.x + rect.w / 2;
    let cy = rect.y + rect.h / 2;
    match anchor {
        Anchor::TL => (l, t),
        Anchor::T => (cx, t),
        Anchor::TR => (r, t),
        Anchor::R => (r, cy),
        Anchor::BR => (r, b),
        Anchor::B => (cx, b),
        Anchor::BL => (l, b),
        Anchor::L => (l, cy),
    }
}

/// Half the side of an anchor's hit box.
pub open spec fn hit_half() -> int {
    ANCHOR_SIZE / 2 + ANCHOR_HIT_PAD
}

/// The cursor is within the hit box of `anchor`.
pub open spec fn hits_anchor(cursor: (i32, i32), rect: Rect, anchor: Anchor) -> bool {
    let c = spec_anchor_center(rect, anchor);
    abs(cursor.0 - c.0) <= hit_half() && abs(cursor.1 - c.1) <= hit_half()
}

/// The cursor offsets from every anchor center are representable.
pub open spec fn classify_fits(cursor: (i32, i32), rect: Rect) -> bool {
    &&& centers_fit(rect)
    &&& forall|i: int| 0 <= i < 8 ==> {
        let c = #[trigger] spec_anchor_center(rect, all_anchors()[i]);
        i32::MIN < cursor.0 - c.0 <= i32::MAX && i32::MIN < cursor.1 - c.1 <= i32::MAX
    }
}

/// The first anchor, in priority order, whose hit box holds the cursor.
pub open spec fn first_hit_from(cursor: (i32, i32), rect: Rect, i: nat) -> Option<Anchor>
    decreases 8 - i,
{
    if i >= 8 {
        None
    } else if hits_anchor(cursor, rect, all_anchors()[i as int]) {
        Some(all_anchors()[i as int])
    } else {
        first_hit_from(cursor, rect, i + 1)
    }
}

pub open spec fn spec_classify(cursor: (i32, i32), rect: Rect) -> HitZone {
    match first_hit_from(cursor, rect, 0) {
        Some(a) => HitZone::Anchor(a),
        None => if rect.spec_contains(cursor) {
            HitZone::Inside
        } else {
            HitZone::Outside
        },
    }
}

fn anchor_at(i: usize) -> (a: Anchor)
    requires
        i < 8,
    ensures
        a == all_anchors()[i as int],
{
    match i {
        0 => Anchor::TL,
        1 => Anchor::T,
        2 => Anchor::TR,
        3 => Anchor::R,
        4 => Anchor::BR,
        5 => Anchor::B,
        6 => Anchor::BL,
        _ => Anchor::L,
    }
}

fn abs_diff_within(a: i32, b: i32, half: i32) -> (r: bool)
    requires
        i32::MIN < a - b <= i32::MAX,
    ensures
        r == (abs(a - b) <= half),
{
    let d = a - b;
    let m = if d < 0 { -d } else { d };
    m <= half
}

/// Anchor hit boxes take priority (in the order TL, T, TR, R, BR, B, BL, L);
/// otherwise the cursor is inside or outside the rectangle.
pub fn classify(cursor: (i32, i32), rect: Rect) -> (z: HitZone)
    requires
        classify_fits(cursor, rect),
    ensures
        z == spec_classify(cursor, rect),
{
    let half = ANCHOR_SIZE / 2 + ANCHOR_HIT_PAD;
    let mut i: usize = 0;
    while i < 8
        invariant
            0 <= i <= 8,
            classify_fits(cursor, rect),
            half == hit_half(),
            first_hit_from(cursor, rect, 0) == first_hit_from(cursor, rect, i as nat),
        decreases 8 - i,
    {
        let a = anchor_at(i);
        let c = anchor_center(rect, a);
        assert(spec_anchor_center(rect, all_anchors()[i as int]) == (c.0 as int, c.1 as int));
        if abs_diff_within(cursor.0, c.0, half) && abs_diff_within(cursor.1, c.1, half) {
            return HitZone::Anchor(a);
        }
        i = i + 1;
    }
    if rect.contains(cursor) {
        HitZone::Inside
    } else {
        HitZone::Outside
    }
}

pub open spec fn spec_cursor_icon_for(zone: HitZone) -> CursorShape {
    match zone {
        HitZone::Anchor(Anchor::TL) | HitZone::Anchor(Anchor::BR) => CursorShape::NwseResize,
        HitZone::Anchor(Anchor::TR) | HitZone::Anchor(Anchor::BL) => CursorShape::NeswResize,
        HitZone::Anchor(Anchor::T) | HitZone::Anchor(Anchor::B) => CursorShape::NsResize,
        HitZone::Anchor(Anchor::L) | HitZone::Anchor(Anchor::R) => CursorShape::EwResize,
        HitZone::Inside => CursorShape::Move,
        HitZone::Outside => CursorShape::Default,
    }
}

/// The cursor shape for each hit zone: diagonal resize on corners, vertical
/// or horizontal resize on edges, move inside, default outside.
pub fn cursor_icon_for(zone: HitZone) -> (c: CursorShape)
    ensures
        c == spec_cursor_icon_for(zone),
{
    match zone {
        HitZone::Anchor(Anchor::TL) | HitZone::Anchor(Anchor::BR) => CursorShape::NwseResize,
        HitZone::Anchor(Anchor::TR) | HitZone::Anchor(Anchor::BL) => CursorShape::NeswResize,
        HitZone::Anchor(Anchor::T) | HitZone::Anchor(Anchor::B) => CursorShape::NsResize,
        HitZone::Anchor(Anchor::L) | HitZone::Anchor(Anchor::R) => CursorShape::EwResize,
        HitZone::Inside => CursorShape::Move,
        HitZone::Outside => CursorShape::Default,
    }
}

} // verus!
