//! Cursor-to-window hit testing for smart snapping, and the click-versus-drag
//! threshold.

use vstd::prelude::*;

use super::state::{Rect, abs};

verus! {

/// An on-screen window, in overlay-window coordinates.
#[derive(Debug, Clone, Copy, PartialEq, Eq, Structural)]
pub struct WindowEntry {
    pub bounds: Rect,
    pub layer: i32,
}

/// Every entry's rectangle has representable edges.
pub open spec fn entries_fit(entries: Seq<WindowEntry>) -> bool {
    forall|i: int| 0 <= i < entries.len() ==> (#[trigger] entries[i]).bounds.edges_fit()
}

/// The first entry (front-most, as the list is in z-order) containing the
/// cursor.
pub open spec fn spec_window_under_cursor(cursor: (i32, i32), entries: Seq<WindowEntry>) -> Option<Rect>
    decreases entries.len(),
{
    if entries.len() == 0 {
        None
    } else if entries[0].bounds.spec_contains(cursor) {
        Some(entries[0].bounds)
    } else {
        spec_window_under_cursor(cursor, entries.drop_first())
    }
}

/// Bounds of the topmost window containing the cursor; `entries` are in
/// z-order, front to back.
pub fn window_under_cursor(cursor: (i32, i32), entries: &[WindowEntry]) -> (r: Option<Rect>)
    requires
        entries_fit(entries@),
    ensures
        r == spec_window_under_cursor(cursor, entries@),
{
    let mut i: usize = 0;
    assert(entries@.skip(0) =~= entries@);
    while i < entries.len()
        invariant
            0 <= i <= entries@.len(),
            entries_fit(entries@),
            spec_window_under_cursor(cursor, entries@) == spec_window_under_cursor(
                cursor,
                entries@.skip(i as int),
            ),
        decreases entries@.len() - i,
    {
        let e = entries[i];
        assert(entries@.skip(i as int)[0] == e);
        assert(entries@.skip(i as int).drop_first() =~= entries@.skip(i + 1));
        if e.bounds.contains(cursor) {
            return Some(e.bounds);
        }
        i = i + 1;
    }
    None
}

/// The window the cursor snaps to is the front-most one containing it: when
/// there is one, it is the first entry (in z-order, front to back) whose
/// bounds contain the cursor, and no entry in front of it contains the
/// cursor; when there is none, no entry contains the cursor.
pub proof fn lemma_window_under_cursor_front_most(cursor: (i32, i32), entries: Seq<WindowEntry>)
    ensures
        spec_window_under_cursor(cursor, entries) is None ==> forall|i: int|
            0 <= i < entries.len() ==> !(#[trigger] entries[i]).bounds.spec_contains(cursor),
        spec_window_under_cursor(cursor, entries) matches Some(r) ==> exists|i: int|
            0 <= i < entries.len() && (#[trigger] entries[i]).bounds == r && r.spec_contains(cursor)
                && forall|j: int| 0 <= j < i ==> !(#[trigger] entries[j]).bounds.spec_contains(cursor),
    decreases entries.len(),
{
    if entries.len() > 0 {
        let rest = entries.drop_first();
        lemma_window_under_cursor_front_most(cursor, rest);
        if entries[0].bounds.spec_contains(cursor) {
            assert(entries[0].bounds == spec_window_under_cursor(cursor, entries)->0);
        } else {
            assert forall|i: int| 1 <= i < entries.len() implies #[trigger] entries[i] == rest[i - 1] by {}
            if spec_window_under_cursor(cursor, rest) is None {
                assert forall|i: int| 0 <= i < entries.len() implies !(#[trigger] entries[i]).bounds.spec_contains(
                    cursor,
                ) by {
                    if i > 0 {
                        assert(entries[i] == rest[i - 1]);
                    }
                }
            } else {
                let r = spec_window_under_cursor(cursor, rest)->0;
                let k = choose|k: int|
                    0 <= k < rest.len() && (#[trigger] rest[k]).bounds == r && r.spec_contains(cursor)
                        && forall|j: int| 0 <= j < k ==> !(#[trigger] rest[j]).bounds.spec_contains(cursor);
                assert(entries[k + 1] == rest[k]);
                assert forall|j: int| 0 <= j < k + 1 implies !(#[trigger] entries[j]).bounds.spec_contains(
                    cursor,
                ) by {
                    if j > 0 {
                        assert(entries[j] == rest[j - 1]);
                    }
                }
            }
        }
    }
}

/// One past the highest window layer a snap target may sit on. Layers 0 to
/// 19 are user-facing: normal windows, floating and modal panels, torn-off
/// menus, utility windows. The dock, the menu bar, popup menus, this overlay
/// and the wallpaper lie outside.
pub const SNAP_LAYER_END: i64 = 20;

/// The layer of a window that smart snapping may target, as an `i32`, or
/// `None` for a window to skip: one without a positive owner process, one of
/// this process, or one off the user-facing layers.
pub open spec fn spec_snap_layer(pid: i64, my_pid: u32, layer: i64) -> Option<i32> {
    if pid > 0 && pid != my_pid as int && 0 <= layer < SNAP_LAYER_END {
        Some(layer as i32)
    } else {
        None
    }
}

/// Decides from its owner process and its layer whether an on-screen window
/// is a snap target, and gives its layer.
pub fn snap_layer(pid: i64, my_pid: u32, layer: i64) -> (r: Option<i32>)
    ensures
        r == spec_snap_layer(pid, my_pid, layer),
{
    if pid <= 0 || pid == my_pid as i64 {
        return None;
    }
    if layer < 0 || layer >= SNAP_LAYER_END {
        return None;
    }
    Some(layer as i32)
}

/// The Manhattan distance between the two points can be computed in `i32`.
pub open spec fn manhattan_fits(a: (i32, i32), b: (i32, i32)) -> bool {
    &&& i32::MIN < b.0 - a.0 <= i32::MAX
    &&& i32::MIN < b.1 - a.1 <= i32::MAX
    &&& abs(b.0 - a.0) + abs(b.1 - a.1) <= i32::MAX
}

pub open spec fn manhattan(a: (i32, i32), b: (i32, i32)) -> int {
    abs(b.0 - a.0) + abs(b.1 - a.1)
}

fn abs_i32(v: i32) -> (r: i32)
    requires
        v != i32::MIN,
    ensures
        r == abs(v as int),
{
    if v < 0 { -v } else { v }
}

/// The cursor has moved at least 4 pixels (Manhattan distance) from where
/// the button was pressed: a drag, not a click.
pub fn drag_threshold_exceeded(start: (i32, i32), now: (i32, i32)) -> (b: bool)
    requires
        manhattan_fits(start, now),
    ensures
        b == (manhattan(start, now) >= 4),
{
    abs_i32(now.0 - start.0) + abs_i32(now.1 - start.1) >= 4
}

} // verus!
