//! Row-major pixel buffers: index arithmetic and single-pixel writes.

use vstd::prelude::*;

use crate::overlay::state::{as_i32, u32_as_i32};

verus! {

/// Index of pixel (x, y) in a row-major buffer `w` pixels wide.
pub open spec fn idx(x: int, y: int, w: int) -> int {
    y * w + x
}

/// A buffer of `len` entries holds exactly `w` by `h` pixels, and every
/// index fits the `u32` arithmetic used to address it.
pub open spec fn buf_ok(len: int, w: u32, h: u32) -> bool {
    len == w * h && w * h <= u32::MAX
}

/// (x, y) is a pixel of a `w` by `h` buffer, tested the way the drawing
/// code tests it: against the sizes read as `i32`.
pub open spec fn on_canvas(x: int, y: int, w: u32, h: u32) -> bool {
    0 <= x && 0 <= y && x < as_i32(w) && y < as_i32(h)
}

pub proof fn lemma_idx_bounds(x: int, y: int, w: int, h: int)
    requires
        0 <= x < w,
        0 <= y < h,
    ensures
        y * w <= idx(x, y, w) < (y + 1) * w,
        0 <= idx(x, y, w) < w * h,
{
    assert(y * w + x < (y + 1) * w) by (nonlinear_arith)
        requires
            0 <= x < w,
    ;
    assert((y + 1) * w <= w * h) by (nonlinear_arith)
        requires
            0 <= y < h,
            0 < w,
    ;
    assert(0 <= y * w) by (nonlinear_arith)
        requires
            0 <= y,
            0 < w,
    ;
}

pub proof fn lemma_idx_injective(x1: int, y1: int, x2: int, y2: int, w: int)
    requires
        0 <= x1 < w,
        0 <= x2 < w,
        0 <= y1,
        0 <= y2,
        idx(x1, y1, w) == idx(x2, y2, w),
    ensures
        x1 == x2,
        y1 == y2,
{
    if y1 < y2 {
        assert(y1 * w + x1 < y2 * w + x2) by (nonlinear_arith)
            requires
                y1 < y2,
                0 <= x1 < w,
                0 <= x2,
        ;
    } else if y2 < y1 {
        assert(y2 * w + x2 < y1 * w + x1) by (nonlinear_arith)
            requires
                y2 < y1,
                0 <= x2 < w,
                0 <= x1,
        ;
    }
}

/// Writing one pixel changes that pixel only.
pub proof fn lemma_put_effect(old: Seq<u32>, new: Seq<u32>, w: u32, h: u32, x: int, y: int, c: u32)
    requires
        buf_ok(old.len() as int, w, h),
        new == (if on_canvas(x, y, w, h) { old.update(idx(x, y, w as int), c) } else { old }),
    ensures
        new.len() == old.len(),
        forall|xx: int, yy: int|
            0 <= xx < w && 0 <= yy < h ==> #[trigger] new[idx(xx, yy, w as int)] == if xx == x && yy
                == y && on_canvas(x, y, w, h) {
                c
            } else {
                old[idx(xx, yy, w as int)]
            },
{
    if on_canvas(x, y, w, h) {
        lemma_idx_bounds(x, y, w as int, h as int);
    }
    assert forall|xx: int, yy: int| 0 <= xx < w && 0 <= yy < h implies #[trigger] new[idx(
        xx,
        yy,
        w as int,
    )] == if xx == x && yy == y && on_canvas(x, y, w, h) {
        c
    } else {
        old[idx(xx, yy, w as int)]
    } by {
        lemma_idx_bounds(xx, yy, w as int, h as int);
        if on_canvas(x, y, w, h) && idx(xx, yy, w as int) == idx(x, y, w as int) {
            lemma_idx_injective(xx, yy, x, y, w as int);
        }
    }
}

/// Set pixel (x, y) when it lies on the canvas; otherwise do nothing.
pub fn put(buf: &mut [u32], w: u32, h: u32, x: i32, y: i32, color: u32)
    requires
        buf_ok(old(buf)@.len() as int, w, h),
    ensures
        final(buf)@ == if on_canvas(x as int, y as int, w, h) {
            old(buf)@.update(idx(x as int, y as int, w as int), color)
        } else {
            old(buf)@
        },
{
    if x >= 0 && y >= 0 && x < u32_as_i32(w) && y < u32_as_i32(h) {
        proof {
            lemma_idx_bounds(x as int, y as int, w as int, h as int);
        }
        buf[(y as u32 * w + x as u32) as usize] = color;
    }
}


/// Writing pixel (x, y) of the canvas changes that pixel only.
pub proof fn lemma_set_effect(old: Seq<u32>, new: Seq<u32>, w: u32, h: u32, x: int, y: int, c: u32)
    requires
        old.len() == w * h,
        0 <= x < w,
        0 <= y < h,
        new == old.update(idx(x, y, w as int), c),
    ensures
        new.len() == old.len(),
        forall|xx: int, yy: int|
            0 <= xx < w && 0 <= yy < h ==> #[trigger] new[idx(xx, yy, w as int)] == if xx == x && yy
                == y {
                c
            } else {
                old[idx(xx, yy, w as int)]
            },
{
    lemma_idx_bounds(x, y, w as int, h as int);
    assert forall|xx: int, yy: int| 0 <= xx < w && 0 <= yy < h implies #[trigger] new[idx(
        xx,
        yy,
        w as int,
    )] == if xx == x && yy == y {
        c
    } else {
        old[idx(xx, yy, w as int)]
    } by {
        lemma_idx_bounds(xx, yy, w as int, h as int);
        if idx(xx, yy, w as int) == idx(x, y, w as int) {
            lemma_idx_injective(xx, yy, x, y, w as int);
        }
    }
}

/// The index of pixel (x, y), which lies on a canvas whose pixel count fits
/// in a `u32`.
pub fn pixel_index(x: u32, y: u32, w: u32, h: u32) -> (i: usize)
    requires
        x < w,
        y < h,
        w * h <= u32::MAX,
    ensures
        i == idx(x as int, y as int, w as int),
        i < w * h,
{
    proof {
        lemma_idx_bounds(x as int, y as int, w as int, h as int);
    }
    (y * w + x) as usize
}

/// Index of pixel (x, y) of a `w` by `h` buffer of `len` entries,
/// computed in `usize`.
pub fn pixel_offset(x: u32, y: u32, w: u32, h: u32, len: usize) -> (i: usize)
    requires
        x < w,
        y < h,
        len == w * h,
    ensures
        i == idx(x as int, y as int, w as int),
        i < w * h,
{
    proof {
        lemma_idx_bounds(x as int, y as int, w as int, h as int);
    }
    (y as usize) * (w as usize) + (x as usize)
}

/// Distinct pixels have indices at least 4 bytes apart when each pixel
/// takes 4 bytes.
pub proof fn lemma_idx_injective_contra(x1: int, y1: int, x2: int, y2: int, w: int)
    requires
        0 <= x1 < w,
        0 <= x2 < w,
        0 <= y1,
        0 <= y2,
        x1 != x2 || y1 != y2,
    ensures
        idx(x1, y1, w) != idx(x2, y2, w),
        idx(x1, y1, w) * 4 + 3 < idx(x2, y2, w) * 4 || idx(x2, y2, w) * 4 + 3 < idx(x1, y1, w) * 4,
{
    if idx(x1, y1, w) == idx(x2, y2, w) {
        lemma_idx_injective(x1, y1, x2, y2, w);
    }
}

} // verus!
