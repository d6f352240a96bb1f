//! Compositing of the overlay's background (the captured frame, dimmed
//! outside the selection), the selection outline and anchor handles, and
//! the placement of the size label and the magnifier.

use vstd::prelude::*;

use super::annotate_render::at_least_one;
use super::hit::{ANCHOR_SIZE, all_anchors, anchor_center, centers_fit, spec_anchor_center};
use super::state::{Anchor, Rect, as_i32, clamp, clamp_i32, in_i32, max, u32_as_i32};
use super::toolbar::{fill_rect, filled, in_box};
use crate::file_save::{dec, push_dec};
use crate::frame::RgbaFrame;
use crate::strings::push_char;
use crate::pixels::{buf_ok, idx, lemma_idx_bounds, lemma_put_effect, lemma_set_effect, on_canvas, pixel_index, pixel_offset, put};

verus! {

/// Where the size label sits relative to the selection.
#[derive(Debug, Clone, Copy, PartialEq, Eq, Structural)]
pub enum LabelPlacement {
    AboveOutside,
    InsideTopLeft,
}

/// Above the selection's top-left corner when the label fits above it
/// (its top at or below row 0); otherwise inside, offset by `gap`.
pub fn size_label_position(rect: Rect, label_size: (i32, i32), gap: i32) -> (r: (i32, i32, LabelPlacement))
    requires
        in_i32(rect.y - gap),
        in_i32(rect.y - gap - label_size.1),
        in_i32(rect.x + gap),
        in_i32(rect.y + gap),
    ensures
        rect.y - gap - label_size.1 >= 0 ==> r == (rect.x, (rect.y - gap - label_size.1) as i32, LabelPlacement::AboveOutside),
        rect.y - gap - label_size.1 < 0 ==> r == ((rect.x + gap) as i32, (rect.y + gap) as i32, LabelPlacement::InsideTopLeft),
{
    let lh = label_size.1;
    let above_y = rect.y - gap - lh;
    if above_y >= 0 {
        (rect.x, above_y, LabelPlacement::AboveOutside)
    } else {
        (rect.x + gap, rect.y + gap, LabelPlacement::InsideTopLeft)
    }
}

/// One side of the selection in frame pixels for the size label: scaled by
/// frame size over window size (a window size of zero read as one),
/// rounded down, as a `u32`, and at least one.
pub open spec fn label_dim(v: i32, frame: u32, window: u32) -> u32 {
    let d = ((v as int) * (frame as int) / at_least_one(window)) as u32;
    if d >= 1 { d } else { 1 }
}

/// The size label's text: `W × H`, the selection's size in frame pixels,
/// which is the size of the image a confirm exports.
pub open spec fn spec_size_label_text(rect: Rect, frame_size: (u32, u32), window_size: (u32, u32)) -> Seq<char> {
    spec_dimensions_text(label_dim(rect.w, frame_size.0, window_size.0), label_dim(rect.h, frame_size.1, window_size.1))
}

/// A width and a height as `W × H`.
pub open spec fn spec_dimensions_text(w: u32, h: u32) -> Seq<char> {
    dec(w as nat) + seq![' ', '\u{00D7}', ' '] + dec(h as nat)
}

/// A width and a height as `W × H`, as the size label and the capture
/// notification show them.
pub fn dimensions_text(w: u32, h: u32) -> (s: String)
    ensures
        s@ == spec_dimensions_text(w, h),
{
    let mut s = String::new();
    push_dec(&mut s, w as u64);
    push_char(&mut s, ' ');
    push_char(&mut s, '\u{00D7}');
    push_char(&mut s, ' ');
    push_dec(&mut s, h as u64);
    assert(s@ =~= spec_dimensions_text(w, h));
    s
}

fn label_dim_exec(v: i32, frame: u32, window: u32) -> (d: u32)
    requires
        v > 0,
    ensures
        d == label_dim(v, frame, window),
{
    let win: u64 = if window >= 1 { window as u64 } else { 1 };
    assert((v as u64) * (frame as u64) <= 0x7fff_ffff * 0xffff_ffff) by (nonlinear_arith)
        requires
            0 < v <= 0x7fff_ffff,
            frame <= 0xffff_ffff,
    ;
    let q = (v as u64) * (frame as u64) / win;
    let d = #[verifier::truncate] (q as u32);
    if d >= 1 { d } else { 1 }
}

/// The text of the size label for the window-pixel selection `rect`.
pub fn size_label_text(rect: Rect, frame_size: (u32, u32), window_size: (u32, u32)) -> (s: String)
    requires
        rect.w > 0,
        rect.h > 0,
    ensures
        s@ == spec_size_label_text(rect, frame_size, window_size),
{
    let pw = label_dim_exec(rect.w, frame_size.0, window_size.0);
    let ph = label_dim_exec(rect.h, frame_size.1, window_size.1);
    dimensions_text(pw, ph)
}

pub const MAG_SIZE: i32 = 120;
pub const MAG_ZOOM: i32 = 4;
pub const MAG_OFFSET: i32 = 20;
pub const MAG_LABEL_H: i32 = 24;

/// The frame pixel shown at offset (dx, dy) of the magnifier's zoom area:
/// `MAG_ZOOM` window pixels per frame pixel, the area centered on `center`,
/// sources clamped into the frame.
pub open spec fn zoom_source(frame: RgbaFrame, center: (i32, i32), mag_size: int, dx: int, dy: int) -> (int, int) {
    let span = mag_size / (MAG_ZOOM as int);
    (
        clamp(center.0 - span / 2 + dx / (MAG_ZOOM as int), 0, frame.width - 1),
        clamp(center.1 - span / 2 + dy / (MAG_ZOOM as int), 0, frame.height - 1),
    )
}

/// The color the zoom area shows at offset (dx, dy).
pub open spec fn zoom_px(frame: RgbaFrame, center: (i32, i32), mag_size: int, dx: int, dy: int) -> u32 {
    let (sx, sy) = zoom_source(frame, center, mag_size, dx, dy);
    swizzle(frame.byte(sx, sy, 0), frame.byte(sx, sy, 1), frame.byte(sx, sy, 2))
}

/// The magnifier's arithmetic stays in range.
pub open spec fn zoom_fits(frame: RgbaFrame, origin: (i32, i32), mag_size: i32, zoom_h: i32, center: (i32, i32)) -> bool {
    &&& 0 < frame.width <= 0x4000_0000 && 0 < frame.height <= 0x4000_0000
    &&& 0 <= zoom_h <= mag_size <= 0x10_0000
    &&& -0x1000_0000 <= origin.0 <= 0x1000_0000 && -0x1000_0000 <= origin.1 <= 0x1000_0000
    &&& 0 <= center.0 <= 0x1000_0000 && 0 <= center.1 <= 0x1000_0000
}

/// Paint the magnifier's zoom area: the `mag_size` by `zoom_h` box at
/// `origin` shows the frame around `center` enlarged `MAG_ZOOM` times.
pub fn draw_magnifier_zoom(
    buf: &mut [u32],
    w: u32,
    h: u32,
    frame: &RgbaFrame,
    origin: (i32, i32),
    mag_size: i32,
    zoom_h: i32,
    center: (i32, i32),
)
    requires
        buf_ok(old(buf)@.len() as int, w, h),
        frame.wf(),
        zoom_fits(*frame, origin, mag_size, zoom_h, center),
    ensures
        final(buf)@.len() == old(buf)@.len(),
        forall|xx: int, yy: int|
            0 <= xx < w && 0 <= yy < h ==> #[trigger] final(buf)@[idx(xx, yy, w as int)] == if in_box(
                xx,
                yy,
                origin.0 as int,
                origin.1 as int,
                mag_size as int,
                zoom_h as int,
            ) && on_canvas(xx, yy, w, h) {
                zoom_px(*frame, center, mag_size as int, xx - origin.0, yy - origin.1)
            } else {
                old(buf)@[idx(xx, yy, w as int)]
            },
{
    let ghost orig = buf@;
    let (fw, fh) = frame.dimensions();
    let raw = frame.as_raw();
    let raw_len = raw.len();
    let span = mag_size / MAG_ZOOM;
    let fw_last = u32_as_i32(fw) - 1;
    let fh_last = u32_as_i32(fh) - 1;
    let mut dy: i32 = 0;
    while dy < zoom_h
        invariant
            buf_ok(orig.len() as int, w, h),
            buf@.len() == orig.len(),
            frame.wf(),
            raw@ == frame.data@,
            raw_len == raw@.len(),
            fw == frame.width && fh == frame.height,
            fw_last == fw - 1 && fh_last == fh - 1,
            span == mag_size / MAG_ZOOM,
            zoom_fits(*frame, origin, mag_size, zoom_h, center),
            0 <= dy <= zoom_h,
            forall|xx: int, yy: int|
                0 <= xx < w && 0 <= yy < h ==> #[trigger] buf@[idx(xx, yy, w as int)] == if in_box(
                    xx,
                    yy,
                    origin.0 as int,
                    origin.1 as int,
                    mag_size as int,
                    dy as int,
                ) && on_canvas(xx, yy, w, h) {
                    zoom_px(*frame, center, mag_size as int, xx - origin.0, yy - origin.1)
                } else {
                    orig[idx(xx, yy, w as int)]
                },
        decreases zoom_h - dy,
    {
        let sy = clamp_i32(center.1 - span / 2 + dy / MAG_ZOOM, 0, fh_last);
        let mut dx: i32 = 0;
        while dx < mag_size
            invariant
                buf_ok(orig.len() as int, w, h),
                buf@.len() == orig.len(),
                frame.wf(),
                raw@ == frame.data@,
                raw_len == raw@.len(),
                fw == frame.width && fh == frame.height,
                fw_last == fw - 1 && fh_last == fh - 1,
                span == mag_size / MAG_ZOOM,
                zoom_fits(*frame, origin, mag_size, zoom_h, center),
                0 <= dy < zoom_h,
                0 <= dx <= mag_size,
                sy == zoom_source(*frame, center, mag_size as int, 0, dy as int).1,
                forall|xx: int, yy: int|
                    0 <= xx < w && 0 <= yy < h ==> #[trigger] buf@[idx(xx, yy, w as int)] == if (in_box(
                        xx,
                        yy,
                        origin.0 as int,
                        origin.1 as int,
                        mag_size as int,
                        dy as int,
                    ) || (yy == origin.1 + dy && origin.0 <= xx < origin.0 + dx)) && on_canvas(xx, yy, w, h) {
                        zoom_px(*frame, center, mag_size as int, xx - origin.0, yy - origin.1)
                    } else {
                        orig[idx(xx, yy, w as int)]
                    },
            decreases mag_size - dx,
        {
            let sx = clamp_i32(center.0 - span / 2 + dx / MAG_ZOOM, 0, fw_last);
            proof {
                lemma_idx_bounds(sx as int, sy as int, fw as int, fh as int);
                let k = idx(sx as int, sy as int, fw as int);
                assert(k * 4 + 3 < fw * fh * 4) by (nonlinear_arith)
                    requires
                        0 <= k < fw * fh,
                ;
                assert(raw@.len() == fw * fh * 4);
            }
            let si = (sy as usize * fw as usize + sx as usize) * 4;
            let v = ((raw[si] as u32) << 16) | ((raw[si + 1] as u32) << 8) | (raw[si + 2] as u32);
            assert(v == zoom_px(*frame, center, mag_size as int, dx as int, dy as int));
            let ghost before = buf@;
            put(buf, w, h, origin.0 + dx, origin.1 + dy, v);
            proof {
                lemma_put_effect(before, buf@, w, h, (origin.0 + dx) as int, (origin.1 + dy) as int, v);
            }
            dx = dx + 1;
        }
        dy = dy + 1;
    }
}

/// An upper-case hexadecimal digit.
pub open spec fn hex_digit(d: int) -> char {
    if d < 10 {
        (('0' as u32) + d) as char
    } else {
        (('A' as u32) + d - 10) as char
    }
}

/// A byte as two upper-case hexadecimal digits.
pub open spec fn hex2(b: u8) -> Seq<char> {
    seq![hex_digit((b / 16) as int), hex_digit((b % 16) as int)]
}

/// The frame pixel the magnifier reads out: the cursor's frame position
/// clamped into the frame.
pub open spec fn readout_pixel(frame: RgbaFrame, at: (i32, i32)) -> (int, int) {
    (clamp(at.0 as int, 0, frame.width - 1), clamp(at.1 as int, 0, frame.height - 1))
}

/// The magnifier's readout: `#RRGGBB Xpx, Ypx` for the color and the
/// position of the pixel under the cursor.
pub open spec fn spec_magnifier_readout(frame: RgbaFrame, at: (i32, i32)) -> Seq<char> {
    let (x, y) = readout_pixel(frame, at);
    seq!['#'] + hex2(frame.byte(x, y, 0)) + hex2(frame.byte(x, y, 1)) + hex2(frame.byte(x, y, 2))
        + seq![' '] + dec(x as nat) + seq!['p', 'x', ',', ' '] + dec(y as nat) + seq!['p', 'x']
}

fn push_hex2(out: &mut String, b: u8)
    ensures
        final(out)@ == old(out)@ + hex2(b),
{
    let hi = b / 16;
    let lo = b % 16;
    let c_hi = if hi < 10 { (hi + 48) as char } else { (hi + 55) as char };
    let c_lo = if lo < 10 { (lo + 48) as char } else { (lo + 55) as char };
    assert(c_hi == hex_digit((b / 16) as int));
    assert(c_lo == hex_digit((b % 16) as int));
    push_char(out, c_hi);
    push_char(out, c_lo);
    assert(out@ =~= old(out)@ + hex2(b));
}

/// The text under the magnifier for the cursor at frame position `at`.
pub fn magnifier_readout(frame: &RgbaFrame, at: (i32, i32)) -> (s: String)
    requires
        frame.wf(),
        0 < frame.width <= i32::MAX,
        0 < frame.height <= i32::MAX,
    ensures
        s@ == spec_magnifier_readout(*frame, at),
{
    let (fw, fh) = frame.dimensions();
    let x = clamp_i32(at.0, 0, (fw - 1) as i32);
    let y = clamp_i32(at.1, 0, (fh - 1) as i32);
    let raw = frame.as_raw();
    let n = raw.len();
    proof {
        lemma_idx_bounds(x as int, y as int, fw as int, fh as int);
        let k = idx(x as int, y as int, fw as int);
        assert(k * 4 + 3 < fw * fh * 4) by (nonlinear_arith)
            requires
                0 <= k < fw * fh,
        ;
        assert(y * fw <= k);
        assert(n == fw * fh * 4);
    }
    let i = (y as usize * fw as usize + x as usize) * 4;
    let mut s = String::new();
    push_char(&mut s, '#');
    push_hex2(&mut s, raw[i]);
    push_hex2(&mut s, raw[i + 1]);
    push_hex2(&mut s, raw[i + 2]);
    push_char(&mut s, ' ');
    push_dec(&mut s, x as u64);
    push_char(&mut s, 'p');
    push_char(&mut s, 'x');
    push_char(&mut s, ',');
    push_char(&mut s, ' ');
    push_dec(&mut s, y as u64);
    push_char(&mut s, 'p');
    push_char(&mut s, 'x');
    assert(s@ =~= spec_magnifier_readout(*frame, at));
    s
}

/// The magnifier's top-left: `offset` below-right of the cursor, flipped to
/// the other side on each axis where it would reach the window's edge, and
/// never above or left of the window.
pub open spec fn spec_magnifier_position(cursor: (i32, i32), window_size: (u32, u32), mag_size: i32, offset: i32) -> (int, int) {
    let (ww, wh) = (as_i32(window_size.0), as_i32(window_size.1));
    let x = if cursor.0 + offset + mag_size >= ww { cursor.0 - offset - mag_size } else { cursor.0 + offset };
    let y = if cursor.1 + offset + mag_size >= wh { cursor.1 - offset - mag_size } else { cursor.1 + offset };
    (max(x, 0), max(y, 0))
}

pub open spec fn magnifier_fits(cursor: (i32, i32), mag_size: i32, offset: i32) -> bool {
    &&& in_i32(cursor.0 + offset) && in_i32(cursor.1 + offset)
    &&& in_i32(cursor.0 + offset + mag_size) && in_i32(cursor.1 + offset + mag_size)
    &&& in_i32(cursor.0 - offset) && in_i32(cursor.1 - offset)
    &&& in_i32(cursor.0 - offset - mag_size) && in_i32(cursor.1 - offset - mag_size)
}

pub fn magnifier_position(cursor: (i32, i32), window_size: (u32, u32), mag_size: i32, offset: i32) -> (r: (i32, i32))
    requires
        magnifier_fits(cursor, mag_size, offset),
    ensures
        r.0 == spec_magnifier_position(cursor, window_size, mag_size, offset).0,
        r.1 == spec_magnifier_position(cursor, window_size, mag_size, offset).1,
{
    let ww = u32_as_i32(window_size.0);
    let wh = u32_as_i32(window_size.1);
    let mut x = cursor.0 + offset;
    let mut y = cursor.1 + offset;
    if x + mag_size >= ww {
        x = cursor.0 - offset - mag_size;
    }
    if y + mag_size >= wh {
        y = cursor.1 - offset - mag_size;
    }
    (if x > 0 { x } else { 0 }, if y > 0 { y } else { 0 })
}

/// Fill a `size` by `size` square at (x, y), clipped to the canvas.
pub fn fill_square(buf: &mut [u32], w: u32, h: u32, x: i32, y: i32, size: i32, color: u32)
    requires
        buf_ok(old(buf)@.len() as int, w, h),
        size > 0 ==> in_i32(x + size) && in_i32(y + size),
    ensures
        filled(old(buf)@, final(buf)@, w, h, x as int, y as int, size as int, size as int, color),
{
    fill_rect(buf, w, h, x, y, size, size, color);
}

/// The anchor handles can be drawn without overflow.
pub open spec fn anchors_fit(rect: Rect) -> bool {
    &&& centers_fit(rect)
    &&& in_i32(rect.x - 4) && in_i32(rect.y - 4)
    &&& in_i32(rect.x + rect.w + 8) && in_i32(rect.y + rect.h + 8)
}

/// The color the first `k` anchor handles leave at (xx, yy): each handle is
/// a black 8 px square with a white 6 px square inside, centered on its
/// anchor, and later handles cover earlier ones.
pub open spec fn anchor_px(rect: Rect, xx: int, yy: int, k: nat) -> Option<u32>
    decreases k,
{
    if k == 0 {
        None
    } else {
        let c = spec_anchor_center(rect, all_anchors()[k - 1]);
        if in_box(xx, yy, c.0 - 3, c.1 - 3, 6, 6) {
            Some(0x00FF_FFFFu32)
        } else if in_box(xx, yy, c.0 - 4, c.1 - 4, 8, 8) {
            Some(0x0000_0000u32)
        } else {
            anchor_px(rect, xx, yy, (k - 1) as nat)
        }
    }
}

/// The buffer after painting the first `k` handles over `old`.
pub open spec fn anchors_painted(old: Seq<u32>, new: Seq<u32>, w: u32, h: u32, rect: Rect, k: nat) -> bool {
    &&& new.len() == old.len()
    &&& forall|xx: int, yy: int|
        0 <= xx < w && 0 <= yy < h ==> #[trigger] new[idx(xx, yy, w as int)] == if on_canvas(
            xx,
            yy,
            w,
            h,
        ) && anchor_px(rect, xx, yy, k) is Some {
            anchor_px(rect, xx, yy, k)->0
        } else {
            old[idx(xx, yy, w as int)]
        }
}

/// Draw the eight anchor handles of `rect` in the order TL, T, TR, R, BR,
/// B, BL, L. Nothing is drawn for a selection without an area.
pub fn draw_anchors(buf: &mut [u32], w: u32, h: u32, rect: Rect)
    requires
        buf_ok(old(buf)@.len() as int, w, h),
        anchors_fit(rect),
    ensures
        !rect.has_area() ==> final(buf)@ == old(buf)@,
        rect.has_area() ==> anchors_painted(old(buf)@, final(buf)@, w, h, rect, 8),
{
    if rect.w <= 0 || rect.h <= 0 {
        return;
    }
    let ghost orig = buf@;
    let mut i: usize = 0;
    while i < 8
        invariant
            0 <= i <= 8,
            buf_ok(orig.len() as int, w, h),
            anchors_fit(rect),
            rect.has_area(),
            anchors_painted(orig, buf@, w, h, rect, i as nat),
        decreases 8 - i,
    {
        let a = anchor_at(i);
        let (ax, ay) = anchor_center(rect, a);
        assert(rect.x <= ax < rect.x + rect.w && rect.y <= ay < rect.y + rect.h);
        let half = ANCHOR_SIZE / 2;
        let ghost b0 = buf@;
        fill_square(buf, w, h, ax - half - 1, ay - half - 1, ANCHOR_SIZE + 2, 0x0000_0000);
        let ghost b1 = buf@;
        fill_square(buf, w, h, ax - half, ay - half, ANCHOR_SIZE, 0x00FF_FFFF);
        proof {
            assert forall|xx: int, yy: int| 0 <= xx < w && 0 <= yy < h implies #[trigger] buf@[idx(
                xx,
                yy,
                w as int,
            )] == if on_canvas(xx, yy, w, h) && anchor_px(rect, xx, yy, (i + 1) as nat) is Some {
                anchor_px(rect, xx, yy, (i + 1) as nat)->0
            } else {
                orig[idx(xx, yy, w as int)]
            } by {
                assert(b1[idx(xx, yy, w as int)] == if in_box(xx, yy, ax - 4, ay - 4, 8, 8)
                    && on_canvas(xx, yy, w, h) {
                    0u32
                } else {
                    b0[idx(xx, yy, w as int)]
                });
            }
        }
        i = i + 1;
    }
}

fn anchor_at(i: usize) -> (a: Anchor)
    requires
        i < 8,
    ensures
        a == all_anchors()[i as int],
{
    match i {
        0 => Anchor::TL,
        1 => Anchor::T,
        2 => Anchor::TR,
        3 => Anchor::R,
        4 => Anchor::BR,
        5 => Anchor::B,
        6 => Anchor::BL,
        _ => Anchor::L,
    }
}

pub open spec fn sat_sub1(v: u32) -> u32 {
    if v >= 1 { (v - 1) as u32 } else { 0 }
}

/// (xx, yy) lies on the 1-px outline of `rect`: its top and bottom rows and
/// its left and right columns, each pulled in to the canvas's last row or
/// column.
pub open spec fn on_outline(xx: int, yy: int, w: u32, h: u32, rect: (u32, u32, u32, u32)) -> bool {
    let (rx, ry, rw, rh) = rect;
    let x2 = rx + sat_sub1(rw);
    let y2 = ry + sat_sub1(rh);
    let (xmax, ymax) = (sat_sub1(w) as int, sat_sub1(h) as int);
    let xe = if x2 <= xmax { x2 } else { xmax };
    let ye = if y2 <= ymax { y2 } else { ymax };
    let ya = if ry <= ymax { ry as int } else { ymax };
    let xa = if rx <= xmax { rx as int } else { xmax };
    &&& rw != 0 && rh != 0
    &&& (((yy == ya || yy == ye) && rx <= xx <= xe) || ((xx == xa || xx == xe) && ry <= yy <= ye))
}

/// Draw the 1-px outline of `rect` (x, y, w, h) in `color`.
pub fn draw_selection_outline(buf: &mut [u32], w: u32, h: u32, rect: (u32, u32, u32, u32), color: u32)
    requires
        buf_ok(old(buf)@.len() as int, w, h),
        w >= 1 && h >= 1,
        rect.0 + sat_sub1(rect.2) <= u32::MAX,
        rect.1 + sat_sub1(rect.3) <= u32::MAX,
    ensures
        final(buf)@.len() == old(buf)@.len(),
        forall|xx: int, yy: int|
            0 <= xx < w && 0 <= yy < h ==> #[trigger] final(buf)@[idx(xx, yy, w as int)] == if on_outline(
                xx,
                yy,
                w,
                h,
                rect,
            ) {
                color
            } else {
                old(buf)@[idx(xx, yy, w as int)]
            },
{
    let (rx, ry, rw, rh) = rect;
    if rw == 0 || rh == 0 {
        return;
    }
    let ghost orig = buf@;
    let x1 = rx;
    let y1 = ry;
    let x2 = rx + if rw >= 1 { rw - 1 } else { 0 };
    let y2 = ry + if rh >= 1 { rh - 1 } else { 0 };
    let xmax = w - 1;
    let ymax = h - 1;
    let xe = if x2 <= xmax { x2 } else { xmax };
    let ye = if y2 <= ymax { y2 } else { ymax };
    let ya = if y1 <= ymax { y1 } else { ymax };
    let yb = ye;
    let xa = if x1 <= xmax { x1 } else { xmax };
    let xb = xe;
    let mut x = x1;
    while x <= xe
        invariant
            buf_ok(orig.len() as int, w, h),
            buf@.len() == orig.len(),
            xe < w,
            ya < h && yb < h,
            x1 <= x <= xe + 1 || (x == x1 && x1 > xe),
            forall|xx: int, yy: int|
                0 <= xx < w && 0 <= yy < h ==> #[trigger] buf@[idx(xx, yy, w as int)] == if (yy == ya
                    || yy == yb) && x1 <= xx < x {
                    color
                } else {
                    orig[idx(xx, yy, w as int)]
                },
        decreases xe + 1 - x,
    {
        let ghost b0 = buf@;
        let i = pixel_index(x, ya, w, h);
        buf[i] = color;
        proof {
            lemma_set_effect(b0, buf@, w, h, x as int, ya as int, color);
        }
        let ghost b1 = buf@;
        let j = pixel_index(x, yb, w, h);
        buf[j] = color;
        proof {
            lemma_set_effect(b1, buf@, w, h, x as int, yb as int, color);
        }
        x = x + 1;
    }
    let mut y = y1;
    while y <= ye
        invariant
            buf_ok(orig.len() as int, w, h),
            buf@.len() == orig.len(),
            xa < w && xb < w,
            ye < h,
            y1 <= y <= ye + 1 || (y == y1 && y1 > ye),
            forall|xx: int, yy: int|
                0 <= xx < w && 0 <= yy < h ==> #[trigger] buf@[idx(xx, yy, w as int)] == if ((yy == ya
                    || yy == yb) && x1 <= xx <= xe) || ((xx == xa || xx == xb) && y1 <= yy < y) {
                    color
                } else {
                    orig[idx(xx, yy, w as int)]
                },
        decreases ye + 1 - y,
    {
        let ghost b0 = buf@;
        let i = pixel_index(xa, y, w, h);
        buf[i] = color;
        proof {
            lemma_set_effect(b0, buf@, w, h, xa as int, y as int, color);
        }
        let ghost b1 = buf@;
        let j = pixel_index(xb, y, w, h);
        buf[j] = color;
        proof {
            lemma_set_effect(b1, buf@, w, h, xb as int, y as int, color);
        }
        y = y + 1;
    }
}

/// Each channel of a `0x00RRGGBB` pixel halved.
pub open spec fn dim_px(px: u32) -> u32 {
    ((((px >> 16u32) & 0xFFu32) / 2) << 16u32) | ((((px >> 8u32) & 0xFFu32) / 2) << 8u32) | ((px
        & 0xFFu32) / 2)
}

fn dim(px: u32) -> (r: u32)
    ensures
        r == dim_px(px),
{
    let r = ((px >> 16) & 0xFF) / 2;
    let g = ((px >> 8) & 0xFF) / 2;
    let b = (px & 0xFF) / 2;
    (r << 16) | (g << 8) | b
}

pub open spec fn sat_add(a: u32, b: u32) -> int {
    if a + b <= u32::MAX { a + b } else { u32::MAX as int }
}

/// (xx, yy) is inside the bright selection `inside` = (x, y, w, h); an
/// empty selection holds no pixel. The far edges saturate at `u32::MAX`.
pub open spec fn bright(inside: Option<(u32, u32, u32, u32)>, xx: int, yy: int) -> bool {
    match inside {
        None => false,
        Some((ix, iy, iw, ih)) => iw > 0 && ih > 0 && iy <= yy < sat_add(iy, ih) && ix <= xx
            < sat_add(ix, iw),
    }
}

/// Darken every pixel outside `inside` (x, y, w, h) by halving each channel.
pub fn apply_dim(buf: &mut [u32], w: u32, h: u32, inside: Option<(u32, u32, u32, u32)>)
    requires
        old(buf)@.len() == w * h,
    ensures
        final(buf)@.len() == old(buf)@.len(),
        forall|xx: int, yy: int|
            0 <= xx < w && 0 <= yy < h ==> #[trigger] final(buf)@[idx(xx, yy, w as int)] == if bright(
                inside,
                xx,
                yy,
            ) {
                old(buf)@[idx(xx, yy, w as int)]
            } else {
                dim_px(old(buf)@[idx(xx, yy, w as int)])
            },
{
    let ghost orig = buf@;
    let n = buf.len();
    let (ix, iy, iw, ih) = match inside {
        Some(t) => t,
        None => (0, 0, 0, 0),
    };
    let iy2: u64 = iy as u64 + ih as u64;
    let ix2: u64 = ix as u64 + iw as u64;
    let mut y: u32 = 0;
    while y < h
        invariant
            orig.len() == w * h,
                n == buf@.len(),
            buf@.len() == orig.len(),
            y <= h,
            inside is None ==> iw == 0,
            inside matches Some(t) ==> t == (ix, iy, iw, ih),
            iy2 == iy + ih,
            ix2 == ix + iw,
            forall|xx: int, yy: int|
                0 <= xx < w && 0 <= yy < h ==> #[trigger] buf@[idx(xx, yy, w as int)] == if yy < y {
                    if bright(inside, xx, yy) {
                        orig[idx(xx, yy, w as int)]
                    } else {
                        dim_px(orig[idx(xx, yy, w as int)])
                    }
                } else {
                    orig[idx(xx, yy, w as int)]
                },
        decreases h - y,
    {
        let mut x: u32 = 0;
        while x < w
            invariant
                orig.len() == w * h,
                n == buf@.len(),
                buf@.len() == orig.len(),
                y < h,
                x <= w,
                inside is None ==> iw == 0,
                inside matches Some(t) ==> t == (ix, iy, iw, ih),
                iy2 == iy + ih,
                ix2 == ix + iw,
                forall|xx: int, yy: int|
                    0 <= xx < w && 0 <= yy < h ==> #[trigger] buf@[idx(xx, yy, w as int)] == if yy
                        < y || (yy == y && xx < x) {
                        if bright(inside, xx, yy) {
                            orig[idx(xx, yy, w as int)]
                        } else {
                            dim_px(orig[idx(xx, yy, w as int)])
                        }
                    } else {
                        orig[idx(xx, yy, w as int)]
                    },
            decreases w - x,
        {
            let keep = iw > 0 && ih > 0 && iy <= y && (y as u64) < iy2 && ix <= x && (x as u64)
                < ix2;
            assert(keep == bright(inside, x as int, y as int));
            if !keep {
                let i = pixel_offset(x, y, w, h, n);
                let ghost b0 = buf@;
                let v = buf[i];
                buf[i] = dim(v);
                proof {
                    lemma_set_effect(b0, buf@, w, h, x as int, y as int, dim_px(v));
                }
            }
            x = x + 1;
        }
        y = y + 1;
    }
}


/// Red, green and blue bytes packed as `0x00RRGGBB`.
pub open spec fn swizzle(r: u8, g: u8, b: u8) -> u32 {
    ((r as u32) << 16u32) | ((g as u32) << 8u32) | (b as u32)
}

/// Each channel halved, then packed.
pub open spec fn halved(r: u8, g: u8, b: u8) -> u32 {
    swizzle(r >> 1u8, g >> 1u8, b >> 1u8)
}

proof fn lemma_dim_swizzle(r: u8, g: u8, b: u8)
    ensures
        dim_px(swizzle(r, g, b)) == halved(r, g, b),
{
    assert(((((((r as u32) << 16u32) | ((g as u32) << 8u32) | (b as u32)) >> 16u32) & 0xFFu32) / 2)
        == ((r >> 1u8) as u32)) by (bit_vector);
    assert(((((((r as u32) << 16u32) | ((g as u32) << 8u32) | (b as u32)) >> 8u32) & 0xFFu32) / 2)
        == ((g >> 1u8) as u32)) by (bit_vector);
    assert(((((r as u32) << 16u32) | ((g as u32) << 8u32) | (b as u32)) & 0xFFu32) / 2 == ((b
        >> 1u8) as u32)) by (bit_vector);
}

/// Nearest-neighbour source coordinate for destination coordinate `v` when
/// `f` source pixels are stretched over `d` destination pixels.
pub open spec fn src_coord(v: int, f: int, d: int) -> int {
    let s = v * f / d;
    if s <= f - 1 { s } else { f - 1 }
}

/// The frame pixel shown at (xx, yy) of a `w` by `h` window.
pub open spec fn background_px(frame: RgbaFrame, w: u32, h: u32, xx: int, yy: int) -> u32 {
    let sx = src_coord(xx, frame.width as int, w as int);
    let sy = src_coord(yy, frame.height as int, h as int);
    swizzle(frame.byte(sx, sy, 0), frame.byte(sx, sy, 1), frame.byte(sx, sy, 2))
}

/// The background drawn and then dimmed outside `inside`.
pub open spec fn two_pass_px(frame: RgbaFrame, w: u32, h: u32, inside: Option<(u32, u32, u32, u32)>, xx: int, yy: int) -> u32 {
    if bright(inside, xx, yy) {
        background_px(frame, w, h, xx, yy)
    } else {
        dim_px(background_px(frame, w, h, xx, yy))
    }
}

/// The frame scales onto the window: same size, or a non-empty frame.
pub open spec fn scalable(frame: RgbaFrame, w: u32, h: u32) -> bool {
    (frame.width == w && frame.height == h) || (frame.width > 0 && frame.height > 0)
}

proof fn lemma_src_identity(v: int, d: int)
    requires
        0 <= v < d,
    ensures
        src_coord(v, d, d) == v,
{
    assert(v * d / d == v) by (nonlinear_arith)
        requires
            0 <= v < d,
    ;
}

proof fn lemma_src_in_range(v: int, f: int, d: int)
    requires
        0 <= v < d,
        f > 0,
    ensures
        0 <= src_coord(v, f, d) < f,
        v * f / d < f,
{
    assert(0 <= v * f / d < f) by (nonlinear_arith)
        requires
            0 <= v < d,
            f > 0,
    ;
}

proof fn lemma_u32_product(a: u32, b: u32)
    ensures
        a * b <= u64::MAX,
{
    assert(a * b <= 0xffff_ffff * 0xffff_ffff) by (nonlinear_arith)
        requires
            a <= 0xffff_ffff,
            b <= 0xffff_ffff,
    ;
}

/// Copy the frame into a `w` by `h` window buffer as `0x00RRGGBB`, scaled
/// by nearest neighbour when the sizes differ.
pub fn draw_background(buf: &mut [u32], w: u32, h: u32, frame: &RgbaFrame)
    requires
        old(buf)@.len() == w * h,
        frame.wf(),
        scalable(*frame, w, h),
    ensures
        final(buf)@.len() == old(buf)@.len(),
        forall|xx: int, yy: int|
            0 <= xx < w && 0 <= yy < h ==> #[trigger] final(buf)@[idx(xx, yy, w as int)]
                == background_px(*frame, w, h, xx, yy),
{
    let (fw, fh) = frame.dimensions();
    let raw = frame.as_raw();
    let raw_len = raw.len();
    let n = buf.len();
    if fw == w && fh == h {
        let mut i: usize = 0;
        while i < n
            invariant
                n == buf@.len(),
                n == w * h,
                raw@ == frame.data@,
                raw@.len() == n * 4,
                raw_len == raw@.len(),
                0 <= i <= n,
                forall|k: int|
                    0 <= k < i ==> #[trigger] buf@[k] == swizzle(raw@[4 * k], raw@[4 * k + 1], raw@[4 * k + 2]),
            decreases n - i,
        {
            let j = 4 * i;
            buf[i] = ((raw[j] as u32) << 16) | ((raw[j + 1] as u32) << 8) | (raw[j + 2] as u32);
            i = i + 1;
        }
        assert forall|xx: int, yy: int| 0 <= xx < w && 0 <= yy < h implies #[trigger] buf@[idx(
            xx,
            yy,
            w as int,
        )] == background_px(*frame, w, h, xx, yy) by {
            lemma_idx_bounds(xx, yy, w as int, h as int);
            lemma_src_identity(xx, w as int);
            lemma_src_identity(yy, h as int);
            let k = idx(xx, yy, w as int);
            assert(buf@[k] == swizzle(raw@[4 * k], raw@[4 * k + 1], raw@[4 * k + 2]));
        }
    } else {
        let mut y: u32 = 0;
        while y < h
            invariant
                buf@.len() == w * h,
                n == buf@.len(),
                frame.wf(),
                raw@ == frame.data@,
                raw_len == raw@.len(),
                fw == frame.width && fh == frame.height,
                fw > 0 && fh > 0,
                y <= h,
                forall|xx: int, yy: int|
                    0 <= xx < w && 0 <= yy < y ==> #[trigger] buf@[idx(xx, yy, w as int)]
                        == background_px(*frame, w, h, xx, yy),
            decreases h - y,
        {
            proof {
                lemma_src_in_range(y as int, fh as int, h as int);
                lemma_u32_product(y, fh);
            }
            let sy64: u64 = y as u64 * fh as u64 / h as u64;
            let src_y: u32 = if sy64 <= (fh - 1) as u64 { sy64 as u32 } else { fh - 1 };
            let mut x: u32 = 0;
            while x < w
                invariant
                    buf@.len() == w * h,
                n == buf@.len(),
                    frame.wf(),
                    raw@ == frame.data@,
                    raw_len == raw@.len(),
                    fw == frame.width && fh == frame.height,
                    fw > 0 && fh > 0,
                    y < h,
                    x <= w,
                    src_y == src_coord(y as int, fh as int, h as int),
                    0 <= src_y < fh,
                    forall|xx: int, yy: int|
                        0 <= xx < w && 0 <= yy < h && (yy < y || (yy == y && xx < x))
                            ==> #[trigger] buf@[idx(xx, yy, w as int)] == background_px(
                            *frame,
                            w,
                            h,
                            xx,
                            yy,
                        ),
                decreases w - x,
            {
                proof {
                    lemma_src_in_range(x as int, fw as int, w as int);
                    lemma_u32_product(x, fw);
                }
                let sx64: u64 = x as u64 * fw as u64 / w as u64;
                let src_x: u32 = if sx64 <= (fw - 1) as u64 { sx64 as u32 } else { fw - 1 };
                proof {
                    lemma_idx_bounds(src_x as int, src_y as int, fw as int, fh as int);
                }
                let si = (src_y as usize * fw as usize + src_x as usize) * 4;
                let v = ((raw[si] as u32) << 16) | ((raw[si + 1] as u32) << 8) | (raw[si + 2] as u32);
                let i = pixel_offset(x, y, w, h, n);
                let ghost b0 = buf@;
                buf[i] = v;
                proof {
                    lemma_set_effect(b0, buf@, w, h, x as int, y as int, v);
                }
                x = x + 1;
            }
            y = y + 1;
        }
    }
}

/// The whole frame, each channel halved: the dimmed background computed
/// once per overlay.
pub open spec fn spec_precomputed(frame: RgbaFrame) -> Seq<u32> {
    Seq::new(
        (frame.width * frame.height) as nat,
        |k: int| halved(frame.data@[4 * k], frame.data@[4 * k + 1], frame.data@[4 * k + 2]),
    )
}

pub fn precompute_dimmed(frame: &RgbaFrame) -> (out: Vec<u32>)
    requires
        frame.wf(),
    ensures
        out@ == spec_precomputed(*frame),
{
    let raw = frame.as_raw();
    let raw_len = raw.len();
    let n = raw_len / 4;
    assert(n == frame.width * frame.height);
    let mut out: Vec<u32> = Vec::with_capacity(n);
    let mut i: usize = 0;
    while i < n
        invariant
            n == frame.width * frame.height,
            raw@ == frame.data@,
            raw@.len() == n * 4,
            raw_len == raw@.len(),
            0 <= i <= n,
            out@.len() == i,
            forall|k: int| 0 <= k < i ==> #[trigger] out@[k] == spec_precomputed(*frame)[k],
        decreases n - i,
    {
        let j = 4 * i;
        let r = (raw[j] >> 1) as u32;
        let g = (raw[j + 1] >> 1) as u32;
        let b = (raw[j + 2] >> 1) as u32;
        out.push((r << 16) | (g << 8) | b);
        i = i + 1;
    }
    assert(out@ =~= spec_precomputed(*frame));
    out
}

/// What `blit_background_dimmed` leaves at (xx, yy): on the fast path the
/// precomputed `dimmed` pixel, or the bright frame pixel inside the
/// selection; otherwise the two-pass result.
pub open spec fn blit_px(
    frame: RgbaFrame,
    w: u32,
    h: u32,
    dimmed: Seq<u32>,
    buf_len: int,
    inside: Option<(u32, u32, u32, u32)>,
    xx: int,
    yy: int,
) -> u32 {
    if frame.width == w && frame.height == h && dimmed.len() == buf_len {
        if bright(inside, xx, yy) {
            swizzle(frame.byte(xx, yy, 0), frame.byte(xx, yy, 1), frame.byte(xx, yy, 2))
        } else {
            dimmed[idx(xx, yy, w as int)]
        }
    } else {
        two_pass_px(frame, w, h, inside, xx, yy)
    }
}

/// Paint the dimmed background with the selection left bright: a copy of
/// the precomputed `dimmed` buffer plus the selection redrawn from the
/// frame, or the two-pass path when the sizes do not line up.
pub fn blit_background_dimmed(
    buf: &mut [u32],
    w: u32,
    h: u32,
    frame: &RgbaFrame,
    dimmed: &[u32],
    inside: Option<(u32, u32, u32, u32)>,
)
    requires
        old(buf)@.len() == w * h,
        frame.wf(),
        scalable(*frame, w, h),
    ensures
        final(buf)@.len() == old(buf)@.len(),
        forall|xx: int, yy: int|
            0 <= xx < w && 0 <= yy < h ==> #[trigger] final(buf)@[idx(xx, yy, w as int)] == blit_px(
                *frame,
                w,
                h,
                dimmed@,
                old(buf)@.len() as int,
                inside,
                xx,
                yy,
            ),
{
    let (fw, fh) = frame.dimensions();
    if fw != w || fh != h || dimmed.len() != buf.len() {
        draw_background(buf, w, h, frame);
        apply_dim(buf, w, h, inside);
        return;
    }
    let ghost orig_len = buf@.len();
    let n = buf.len();
    let mut i: usize = 0;
    while i < n
        invariant
            n == buf@.len(),
            n == dimmed@.len(),
            0 <= i <= n,
            forall|k: int| 0 <= k < i ==> #[trigger] buf@[k] == dimmed@[k],
        decreases n - i,
    {
        buf[i] = dimmed[i];
        i = i + 1;
    }
    assert(buf@ =~= dimmed@);
    let raw = frame.as_raw();
    let raw_len = raw.len();
    match inside {
        Some((ix, iy, iw, ih)) => {
            if iw == 0 || ih == 0 {
                return;
            }
            let ix_lo: u32 = if ix <= w { ix } else { w };
            let ix_sum: u64 = ix as u64 + iw as u64;
            let ix_hi: u32 = if ix_sum <= w as u64 { ix_sum as u32 } else { w };
            let iy_sum: u64 = iy as u64 + ih as u64;
            let iy_hi: u32 = if iy_sum <= h as u64 { iy_sum as u32 } else { h };
            let mut y: u32 = iy;
            while y < iy_hi
                invariant
                    buf@.len() == w * h,
                    n == buf@.len(),
                    buf@.len() == dimmed@.len(),
                    frame.wf(),
                    raw@ == frame.data@,
                    raw_len == raw@.len(),
                    fw == w && fh == h,
                    fw == frame.width && fh == frame.height,
                    inside == Some((ix, iy, iw, ih)),
                    iw > 0 && ih > 0,
                    ix_lo == if ix <= w { ix } else { w },
                    ix_hi as int == if ix + iw <= w { ix + iw } else { w as int },
                    iy_hi as int == if iy + ih <= h { iy + ih } else { h as int },
                    iy <= y,
                    y <= iy_hi || y == iy,
                    forall|xx: int, yy: int|
                        0 <= xx < w && 0 <= yy < h ==> #[trigger] buf@[idx(xx, yy, w as int)] == if bright(
                            inside,
                            xx,
                            yy,
                        ) && yy < y {
                            swizzle(frame.byte(xx, yy, 0), frame.byte(xx, yy, 1), frame.byte(xx, yy, 2))
                        } else {
                            dimmed@[idx(xx, yy, w as int)]
                        },
                decreases iy_hi - y,
            {
                let mut x: u32 = ix_lo;
                while x < ix_hi
                    invariant
                        buf@.len() == w * h,
                    n == buf@.len(),
                        buf@.len() == dimmed@.len(),
                        frame.wf(),
                        raw@ == frame.data@,
                        raw_len == raw@.len(),
                        fw == w && fh == h,
                        fw == frame.width && fh == frame.height,
                        inside == Some((ix, iy, iw, ih)),
                        iw > 0 && ih > 0,
                        ix_lo == if ix <= w { ix } else { w },
                        ix_hi as int == if ix + iw <= w { ix + iw } else { w as int },
                        iy_hi as int == if iy + ih <= h { iy + ih } else { h as int },
                        iy <= y < iy_hi,
                        ix_lo <= x,
                        x <= ix_hi || x == ix_lo,
                        forall|xx: int, yy: int|
                            0 <= xx < w && 0 <= yy < h ==> #[trigger] buf@[idx(xx, yy, w as int)]
                                == if bright(inside, xx, yy) && (yy < y || (yy == y && xx < x)) {
                                swizzle(
                                    frame.byte(xx, yy, 0),
                                    frame.byte(xx, yy, 1),
                                    frame.byte(xx, yy, 2),
                                )
                            } else {
                                dimmed@[idx(xx, yy, w as int)]
                            },
                    decreases ix_hi - x,
                {
                    let i = pixel_offset(x, y, w, h, n);
                    let si = i * 4;
                    let v = ((raw[si] as u32) << 16) | ((raw[si + 1] as u32) << 8) | (raw[si + 2] as u32);
                    let ghost b0 = buf@;
                    buf[i] = v;
                    proof {
                        lemma_set_effect(b0, buf@, w, h, x as int, y as int, v);
                    }
                    x = x + 1;
                }
                y = y + 1;
            }
        },
        None => {},
    }
}

/// The precomputed fast path is bit-for-bit identical to drawing the
/// background and then dimming it: for every frame, window size and
/// selection, `blit_background_dimmed` with the output of
/// `precompute_dimmed` leaves what `draw_background` followed by
/// `apply_dim` leaves.
pub proof fn lemma_blit_matches_two_pass(
    frame: RgbaFrame,
    w: u32,
    h: u32,
    inside: Option<(u32, u32, u32, u32)>,
    buf_len: int,
)
    requires
        frame.wf(),
        buf_len == w * h,
    ensures
        forall|xx: int, yy: int|
            0 <= xx < w && 0 <= yy < h ==> #[trigger] blit_px(
                frame,
                w,
                h,
                spec_precomputed(frame),
                buf_len,
                inside,
                xx,
                yy,
            ) == two_pass_px(frame, w, h, inside, xx, yy),
{
    assert forall|xx: int, yy: int| 0 <= xx < w && 0 <= yy < h implies #[trigger] blit_px(
        frame,
        w,
        h,
        spec_precomputed(frame),
        buf_len,
        inside,
        xx,
        yy,
    ) == two_pass_px(frame, w, h, inside, xx, yy) by {
        let d = spec_precomputed(frame);
        if frame.width == w && frame.height == h && d.len() == buf_len {
            lemma_src_identity(xx, w as int);
            lemma_src_identity(yy, h as int);
            lemma_idx_bounds(xx, yy, w as int, h as int);
            let k = idx(xx, yy, w as int);
            lemma_dim_swizzle(frame.data@[4 * k], frame.data@[4 * k + 1], frame.data@[4 * k + 2]);
        }
    }
}

} // verus!
