//! Glyph compositing: the coverage bitmap of a rasterized glyph blended, in
//! a colour, over a window buffer or over an RGBA image.

use vstd::prelude::*;

use crate::frame::RgbaFrame;
use crate::overlay::annotate_render::set_pixel;
use crate::overlay::state::{as_i32, u32_as_i32};
use crate::pixels::{buf_ok, idx, lemma_idx_bounds, lemma_set_effect, on_canvas, pixel_index};

verus! {

/// One channel: `fg` laid over `bg` at coverage `a` out of 255.
pub open spec fn blend_channel(fg: int, bg: int, a: int) -> int {
    (fg * a + bg * (255 - a)) / 255
}

/// The glyph colour `color` (red, green, blue) laid over the `0x00RRGGBB`
/// pixel `bg` at coverage `a`.
pub open spec fn glyph_blend(color: (u32, u32, u32), bg: u32, a: u8) -> u32 {
    let r = blend_channel(color.0 as int, ((bg >> 16u32) & 0xFFu32) as int, a as int);
    let g = blend_channel(color.1 as int, ((bg >> 8u32) & 0xFFu32) as int, a as int);
    let b = blend_channel(color.2 as int, (bg & 0xFFu32) as int, a as int);
    ((r as u32) << 16u32) | ((g as u32) << 8u32) | (b as u32)
}

/// The coverage the glyph puts on pixel (xx, yy) when its top-left is at
/// (x, y): `None` outside the `gw` by `gh` glyph and where it is
/// transparent.
pub open spec fn glyph_coverage(bitmap: Seq<u8>, gw: u32, gh: u32, x: int, y: int, xx: int, yy: int) -> Option<u8> {
    let gx = xx - x;
    let gy = yy - y;
    if 0 <= gx < gw && 0 <= gy < gh && bitmap[gy * gw + gx] != 0 {
        Some(bitmap[gy * gw + gx])
    } else {
        None
    }
}

/// Glyph pixel (gx, gy) comes before (col, row) in row-major order.
pub open spec fn before(gx: int, gy: int, col: int, row: int) -> bool {
    gy < row || (gy == row && gx < col)
}

/// The glyph drawn over `old` up to glyph pixel (col, row), exclusive.
pub open spec fn glyph_px_upto(
    old: Seq<u32>,
    w: u32,
    h: u32,
    x: int,
    y: int,
    gw: u32,
    gh: u32,
    bitmap: Seq<u8>,
    color: (u32, u32, u32),
    col: int,
    row: int,
    xx: int,
    yy: int,
) -> u32 {
    let c = glyph_coverage(bitmap, gw, gh, x, y, xx, yy);
    if c is Some && before(xx - x, yy - y, col, row) && on_canvas(xx, yy, w, h) {
        glyph_blend(color, old[idx(xx, yy, w as int)], c->0)
    } else {
        old[idx(xx, yy, w as int)]
    }
}

/// The buffer `new` is `old` with the glyph drawn up to (col, row).
pub open spec fn drawn_upto(
    old: Seq<u32>,
    new: Seq<u32>,
    w: u32,
    h: u32,
    x: int,
    y: int,
    gw: u32,
    gh: u32,
    bitmap: Seq<u8>,
    color: (u32, u32, u32),
    col: int,
    row: int,
) -> bool {
    &&& new.len() == old.len()
    &&& forall|xx: int, yy: int|
        0 <= xx < w && 0 <= yy < h ==> #[trigger] new[idx(xx, yy, w as int)] == glyph_px_upto(
            old,
            w,
            h,
            x,
            y,
            gw,
            gh,
            bitmap,
            color,
            col,
            row,
            xx,
            yy,
        )
}

fn blend_channel_u32(fg: u32, bg: u32, a: u32) -> (r: u32)
    requires
        fg <= 255,
        bg <= 255,
        a <= 255,
    ensures
        r == blend_channel(fg as int, bg as int, a as int),
        r <= 255,
{
    assert(fg * a <= 255 * 255 && bg * (255 - a) <= 255 * 255) by (nonlinear_arith)
        requires
            fg <= 255,
            bg <= 255,
            a <= 255,
    ;
    assert((fg * a + bg * (255 - a)) / 255 <= 255) by (nonlinear_arith)
        requires
            fg <= 255,
            bg <= 255,
            a <= 255,
    ;
    (fg * a + bg * (255 - a)) / 255
}

/// `color` over the window pixel `bg` at coverage `a`.
fn blend_px(color: (u32, u32, u32), bg: u32, a: u8) -> (r: u32)
    requires
        color.0 <= 255,
        color.1 <= 255,
        color.2 <= 255,
    ensures
        r == glyph_blend(color, bg, a),
{
    assert(((bg >> 16u32) & 0xFFu32) <= 255 && ((bg >> 8u32) & 0xFFu32) <= 255 && (bg & 0xFFu32)
        <= 255) by (bit_vector);
    let r = blend_channel_u32(color.0, (bg >> 16) & 0xFF, a as u32);
    let g = blend_channel_u32(color.1, (bg >> 8) & 0xFF, a as u32);
    let b = blend_channel_u32(color.2, bg & 0xFF, a as u32);
    (r << 16) | (g << 8) | b
}

/// Blend the `gw` by `gh` glyph `bitmap` (coverage 0 to 255 per pixel, row
/// by row) in `color` over the window buffer, its top-left at (x, y).
/// Transparent glyph pixels and those off the canvas leave the buffer
/// alone.
pub fn blit_glyph(
    buf: &mut [u32],
    w: u32,
    h: u32,
    x: i32,
    y: i32,
    gw: u32,
    gh: u32,
    bitmap: &[u8],
    color: (u32, u32, u32),
)
    requires
        buf_ok(old(buf)@.len() as int, w, h),
        bitmap@.len() == gw * gh,
        color.0 <= 255,
        color.1 <= 255,
        color.2 <= 255,
    ensures
        drawn_upto(old(buf)@, final(buf)@, w, h, x as int, y as int, gw, gh, bitmap@, color, 0, gh as int),
{
    let ghost orig = buf@;
    let n = bitmap.len();
    let ww = u32_as_i32(w) as i64;
    let hh = u32_as_i32(h) as i64;
    let mut gy: u32 = 0;
    while gy < gh
        invariant
            buf_ok(orig.len() as int, w, h),
            bitmap@.len() == gw * gh,
            n == bitmap@.len(),
            color.0 <= 255 && color.1 <= 255 && color.2 <= 255,
            ww == as_i32(w),
            hh == as_i32(h),
            0 <= gy <= gh,
            drawn_upto(orig, buf@, w, h, x as int, y as int, gw, gh, bitmap@, color, 0, gy as int),
        decreases gh - gy,
    {
        let mut gx: u32 = 0;
        while gx < gw
            invariant
                buf_ok(orig.len() as int, w, h),
                bitmap@.len() == gw * gh,
                n == bitmap@.len(),
                color.0 <= 255 && color.1 <= 255 && color.2 <= 255,
                ww == as_i32(w),
                hh == as_i32(h),
                0 <= gy < gh,
                0 <= gx <= gw,
                drawn_upto(orig, buf@, w, h, x as int, y as int, gw, gh, bitmap@, color, gx as int, gy as int),
            decreases gw - gx,
        {
            proof {
                assert(0 <= gy * gw && gy * gw + gx < gw * gh) by (nonlinear_arith)
                    requires
                        gy < gh,
                        gx < gw,
                ;
                assert(n <= usize::MAX);
            }
            let k = gy as usize * gw as usize + gx as usize;
            let a = bitmap[k];
            let px = x as i64 + gx as i64;
            let py = y as i64 + gy as i64;
            let ghost before_buf = buf@;
            if a != 0 && px >= 0 && py >= 0 && px < ww && py < hh {
                let i = pixel_index(px as u32, py as u32, w, h);
                let v = blend_px(color, buf[i], a);
                buf[i] = v;
                proof {
                    lemma_set_effect(before_buf, buf@, w, h, px as int, py as int, v);
                    assert forall|xx: int, yy: int| 0 <= xx < w && 0 <= yy < h implies #[trigger] buf@[idx(
                        xx,
                        yy,
                        w as int,
                    )] == glyph_px_upto(orig, w, h, x as int, y as int, gw, gh, bitmap@, color, gx + 1, gy as int, xx, yy) by {
                        assert(before_buf[idx(xx, yy, w as int)] == glyph_px_upto(orig, w, h, x as int, y as int, gw, gh, bitmap@, color, gx as int, gy as int, xx, yy));
                    }
                }
            } else {
                proof {
                    assert forall|xx: int, yy: int| 0 <= xx < w && 0 <= yy < h implies #[trigger] buf@[idx(
                        xx,
                        yy,
                        w as int,
                    )] == glyph_px_upto(orig, w, h, x as int, y as int, gw, gh, bitmap@, color, gx + 1, gy as int, xx, yy) by {
                        assert(before_buf[idx(xx, yy, w as int)] == glyph_px_upto(orig, w, h, x as int, y as int, gw, gh, bitmap@, color, gx as int, gy as int, xx, yy));
                    }
                }
            }
            gx = gx + 1;
        }
        proof {
            assert forall|xx: int, yy: int| 0 <= xx < w && 0 <= yy < h implies #[trigger] buf@[idx(
                xx,
                yy,
                w as int,
            )] == glyph_px_upto(orig, w, h, x as int, y as int, gw, gh, bitmap@, color, 0, gy + 1, xx, yy) by {
                assert(buf@[idx(xx, yy, w as int)] == glyph_px_upto(orig, w, h, x as int, y as int, gw, gh, bitmap@, color, gw as int, gy as int, xx, yy));
            }
        }
        gy = gy + 1;
    }
}

/// Channel `c` (0 red, 1 green, 2 blue) of `color`.
pub open spec fn channel_of(color: (u8, u8, u8), c: int) -> u8 {
    if c == 0 {
        color.0
    } else if c == 1 {
        color.1
    } else {
        color.2
    }
}

/// Byte `c` of pixel (xx, yy) of the image `old` with the glyph drawn up
/// to glyph pixel (col, row): the colour channels blended, alpha kept.
pub open spec fn rgba_glyph_upto(
    old: RgbaFrame,
    x: int,
    y: int,
    gw: u32,
    gh: u32,
    bitmap: Seq<u8>,
    color: (u8, u8, u8),
    col: int,
    row: int,
    xx: int,
    yy: int,
    c: int,
) -> u8 {
    let cov = glyph_coverage(bitmap, gw, gh, x, y, xx, yy);
    if c < 3 && cov is Some && before(xx - x, yy - y, col, row) && on_canvas(xx, yy, old.width, old.height) {
        blend_channel(channel_of(color, c) as int, old.byte(xx, yy, c) as int, cov->0 as int) as u8
    } else {
        old.byte(xx, yy, c)
    }
}

/// The image `new` is `old` with the glyph drawn up to (col, row).
pub open spec fn image_drawn_upto(
    old: RgbaFrame,
    new: RgbaFrame,
    x: int,
    y: int,
    gw: u32,
    gh: u32,
    bitmap: Seq<u8>,
    color: (u8, u8, u8),
    col: int,
    row: int,
) -> bool {
    &&& new.width == old.width && new.height == old.height && new.wf()
    &&& forall|xx: int, yy: int, c: int|
        0 <= xx < old.width && 0 <= yy < old.height && 0 <= c < 4 ==> #[trigger] new.byte(xx, yy, c)
            == rgba_glyph_upto(old, x, y, gw, gh, bitmap, color, col, row, xx, yy, c)
}

/// Blend the `gw` by `gh` glyph `bitmap` in `color` over an RGBA image, its
/// top-left at (x, y). The colour channels of covered pixels are blended;
/// alpha, transparent glyph pixels and those off the image are left alone.
pub fn blit_glyph_rgba(
    img: &mut RgbaFrame,
    x: i32,
    y: i32,
    gw: u32,
    gh: u32,
    bitmap: &[u8],
    color: (u8, u8, u8),
)
    requires
        old(img).wf(),
        bitmap@.len() == gw * gh,
    ensures
        image_drawn_upto(*old(img), *final(img), x as int, y as int, gw, gh, bitmap@, color, 0, gh as int),
{
    let ghost orig = *img;
    let n = bitmap.len();
    let ww = u32_as_i32(img.width) as i64;
    let hh = u32_as_i32(img.height) as i64;
    let mut gy: u32 = 0;
    while gy < gh
        invariant
            orig.wf(),
            bitmap@.len() == gw * gh,
            n == bitmap@.len(),
            ww == as_i32(orig.width),
            hh == as_i32(orig.height),
            0 <= gy <= gh,
            image_drawn_upto(orig, *img, x as int, y as int, gw, gh, bitmap@, color, 0, gy as int),
        decreases gh - gy,
    {
        let mut gx: u32 = 0;
        while gx < gw
            invariant
                orig.wf(),
                bitmap@.len() == gw * gh,
                n == bitmap@.len(),
                ww == as_i32(orig.width),
                hh == as_i32(orig.height),
                0 <= gy < gh,
                0 <= gx <= gw,
                image_drawn_upto(orig, *img, x as int, y as int, gw, gh, bitmap@, color, gx as int, gy as int),
            decreases gw - gx,
        {
            proof {
                assert(0 <= gy * gw && gy * gw + gx < gw * gh) by (nonlinear_arith)
                    requires
                        gy < gh,
                        gx < gw,
                ;
                assert(n <= usize::MAX);
            }
            let k = gy as usize * gw as usize + gx as usize;
            let a = bitmap[k];
            let px = x as i64 + gx as i64;
            let py = y as i64 + gy as i64;
            let ghost before_img = *img;
            if a != 0 && px >= 0 && py >= 0 && px < ww && py < hh {
                let ghost (xi, yi) = (px as int, py as int);
                let len = img.data.len();
                proof {
                    assert(xi < orig.width && yi < orig.height);
                    lemma_idx_bounds(xi, yi, orig.width as int, orig.height as int);
                    assert(yi * orig.width <= idx(xi, yi, orig.width as int));
                    assert(idx(xi, yi, orig.width as int) * 4 + 3 < len);
                }
                let base = (py as usize * img.width as usize + px as usize) * 4;
                let r = blend_channel_u32(color.0 as u32, img.data[base] as u32, a as u32) as u8;
                let g = blend_channel_u32(color.1 as u32, img.data[base + 1] as u32, a as u32) as u8;
                let b = blend_channel_u32(color.2 as u32, img.data[base + 2] as u32, a as u32) as u8;
                let keep = img.data[base + 3];
                let pxl = [r, g, b, keep];
                proof {
                    assert(img.data@[base as int] == img.byte(xi, yi, 0));
                    assert(img.data@[base + 1] == img.byte(xi, yi, 1));
                    assert(img.data@[base + 2] == img.byte(xi, yi, 2));
                    assert(img.data@[base + 3] == img.byte(xi, yi, 3));
                }
                set_pixel(img, px as u32, py as u32, pxl);
                proof {
                    assert forall|xx: int, yy: int, c: int|
                        0 <= xx < orig.width && 0 <= yy < orig.height && 0 <= c < 4 implies #[trigger] img.byte(
                        xx,
                        yy,
                        c,
                    ) == rgba_glyph_upto(orig, x as int, y as int, gw, gh, bitmap@, color, gx + 1, gy as int, xx, yy, c) by {
                        assert(before_img.byte(xx, yy, c) == rgba_glyph_upto(orig, x as int, y as int, gw, gh, bitmap@, color, gx as int, gy as int, xx, yy, c));
                        if xx == xi && yy == yi {
                            assert(before_img.byte(xx, yy, c) == orig.byte(xx, yy, c));
                        }
                    }
                }
            } else {
                proof {
                    assert forall|xx: int, yy: int, c: int|
                        0 <= xx < orig.width && 0 <= yy < orig.height && 0 <= c < 4 implies #[trigger] img.byte(
                        xx,
                        yy,
                        c,
                    ) == rgba_glyph_upto(orig, x as int, y as int, gw, gh, bitmap@, color, gx + 1, gy as int, xx, yy, c) by {
                        assert(before_img.byte(xx, yy, c) == rgba_glyph_upto(orig, x as int, y as int, gw, gh, bitmap@, color, gx as int, gy as int, xx, yy, c));
                    }
                }
            }
            gx = gx + 1;
        }
        proof {
            assert forall|xx: int, yy: int, c: int|
                0 <= xx < orig.width && 0 <= yy < orig.height && 0 <= c < 4 implies #[trigger] img.byte(
                xx,
                yy,
                c,
            ) == rgba_glyph_upto(orig, x as int, y as int, gw, gh, bitmap@, color, 0, gy + 1, xx, yy, c) by {
                assert(img.byte(xx, yy, c) == rgba_glyph_upto(orig, x as int, y as int, gw, gh, bitmap@, color, gw as int, gy as int, xx, yy, c));
            }
        }
        gy = gy + 1;
    }
}

} // verus!
