//! Cropping a captured frame to the selected region.

use vstd::prelude::*;

use crate::frame::RgbaFrame;
use crate::overlay::state::{as_i32, clamp, max, min, u32_as_i32};

verus! {

/// The drag from `start` to `end`, clipped to `[0, bounds]`, as
/// (x, y, w, h); `None` when it covers no pixel.
pub open spec fn spec_normalize_rect(start: (i32, i32), end: (i32, i32), bounds: (u32, u32)) -> Option<(u32, u32, u32, u32)> {
    let (bw, bh) = (as_i32(bounds.0), as_i32(bounds.1));
    let x0 = min(max(min(start.0 as int, end.0 as int), 0), bw);
    let y0 = min(max(min(start.1 as int, end.1 as int), 0), bh);
    let x1 = min(max(max(start.0 as int, end.0 as int), 0), bw);
    let y1 = min(max(max(start.1 as int, end.1 as int), 0), bh);
    if x1 - x0 == 0 || y1 - y0 == 0 {
        None
    } else {
        Some((x0 as u32, y0 as u32, (x1 - x0) as u32, (y1 - y0) as u32))
    }
}

/// Normalize a drag to a clipped (x, y, w, h) rectangle.
pub fn normalize_rect(start: (i32, i32), end: (i32, i32), bounds: (u32, u32)) -> (r: Option<(u32, u32, u32, u32)>)
    ensures
        r == spec_normalize_rect(start, end, bounds),
        r matches Some(t) ==> t.2 > 0 && t.3 > 0 && t.0 + t.2 <= bounds.0 && t.1 + t.3 <= bounds.1,
{
    let bw = u32_as_i32(bounds.0);
    let bh = u32_as_i32(bounds.1);
    let lo_x = if start.0 <= end.0 { start.0 } else { end.0 };
    let lo_y = if start.1 <= end.1 { start.1 } else { end.1 };
    let hi_x = if start.0 >= end.0 { start.0 } else { end.0 };
    let hi_y = if start.1 >= end.1 { start.1 } else { end.1 };
    let x0 = min_i32(max_i32(lo_x, 0), bw);
    let y0 = min_i32(max_i32(lo_y, 0), bh);
    let x1 = min_i32(max_i32(hi_x, 0), bw);
    let y1 = min_i32(max_i32(hi_y, 0), bh);
    let w = x1 - x0;
    let h = y1 - y0;
    if w == 0 || h == 0 {
        return None;
    }
    Some((x0 as u32, y0 as u32, w as u32, h as u32))
}

fn min_i32(a: i32, b: i32) -> (r: i32)
    ensures
        r == min(a as int, b as int),
{
    if a <= b { a } else { b }
}

fn max_i32(a: i32, b: i32) -> (r: i32)
    ensures
        r == max(a as int, b as int),
{
    if a >= b { a } else { b }
}

/// The region `image::imageops::crop_imm` keeps: the origin capped at the
/// image size, and the size capped at what remains of the image.
pub open spec fn crop_dimms(iw: u32, ih: u32, x: u32, y: u32, w: u32, h: u32) -> (u32, u32, u32, u32) {
    let cx = if x <= iw { x } else { iw };
    let cy = if y <= ih { y } else { ih };
    let ch = if h <= ih - cy { h } else { (ih - cy) as u32 };
    let cw = if w <= iw - cx { w } else { (iw - cx) as u32 };
    (cx, cy, cw, ch)
}

/// `image::imageops::crop_imm(..).to_image()` on an RGBA image given by its
/// size and bytes. As the image crate's source shows, the region is first
/// clamped to the image (see `crop_dimms`) and its pixels are then copied
/// row by row into a new image of the clamped size; the returned bytes are
/// that image's raw buffer.
#[verifier::external_body]
fn crop_imm_to_image(width: u32, height: u32, data: &[u8], x: u32, y: u32, w: u32, h: u32) -> (r: (u32, u32, Vec<u8>))
    requires
        data@.len() == width * height * 4,
    ensures
        r.0 == crop_dimms(width, height, x, y, w, h).2,
        r.1 == crop_dimms(width, height, x, y, w, h).3,
        r.2@.len() == r.0 * r.1 * 4,
        forall|xx: int, yy: int, c: int|
            0 <= xx < r.0 && 0 <= yy < r.1 && 0 <= c < 4 ==> #[trigger] r.2@[(yy * r.0 + xx) * 4 + c]
                == data@[((crop_dimms(width, height, x, y, w, h).1 + yy) * width + crop_dimms(
                width,
                height,
                x,
                y,
                w,
                h,
            ).0 + xx) * 4 + c],
{
    let img = image::RgbaImage::from_raw(width, height, data.to_vec()).unwrap_or_default();
    let out = image::imageops::crop_imm(&img, x, y, w, h).to_image();
    (out.width(), out.height(), out.into_raw())
}

/// The part of `img` inside `rect` (x, y, w, h), clamped to the image.
pub fn crop_rgba(img: &RgbaFrame, rect: (u32, u32, u32, u32)) -> (r: RgbaFrame)
    requires
        img.wf(),
    ensures
        r.wf(),
        ({
            let (cx, cy, cw, ch) = crop_dimms(img.width, img.height, rect.0, rect.1, rect.2, rect.3);
            &&& r.width == cw && r.height == ch
            &&& forall|xx: int, yy: int, c: int|
                0 <= xx < cw && 0 <= yy < ch && 0 <= c < 4 ==> #[trigger] r.byte(xx, yy, c)
                    == img.byte(cx + xx, cy + yy, c)
        }),
{
    let (x, y, w, h) = rect;
    let (cw, ch, data) = crop_imm_to_image(img.width, img.height, img.as_raw(), x, y, w, h);
    let r = RgbaFrame { width: cw, height: ch, data };
    assert forall|xx: int, yy: int, c: int|
        0 <= xx < cw && 0 <= yy < ch && 0 <= c < 4 implies #[trigger] r.byte(xx, yy, c) == img.byte(
        crop_dimms(img.width, img.height, x, y, w, h).0 + xx,
        crop_dimms(img.width, img.height, x, y, w, h).1 + yy,
        c,
    ) by {
        let (cx, cy, cw2, ch2) = crop_dimms(img.width, img.height, x, y, w, h);
        assert(r.data@[(yy * cw + xx) * 4 + c] == img.data@[((cy + yy) * img.width + cx + xx) * 4
            + c]);
        assert(((cy + yy) * img.width + cx + xx) * 4 + c == ((cy + yy) * img.width + (cx + xx)) * 4
            + c);
    }
    r
}

} // verus!
