//! The integer parts of painting annotations: rectangle outlines and
//! pixelated (mosaic) regions, on the exported image and on the live
//! window buffer, the frame-to-window point mapping, and the lines of a
//! text annotation.

use vstd::prelude::*;

use super::render::swizzle;
use super::state::{Rect, as_i32, in_i32, u32_as_i32};
use super::toolbar::{fill_rect, filled, in_box};
use crate::frame::RgbaFrame;
use crate::pixels::{buf_ok, idx, lemma_idx_bounds, on_canvas};
use crate::strings::{chars_of, push_char};

verus! {

pub open spec fn at_least_one(v: u32) -> int {
    if v >= 1 { v as int } else { 1 }
}

/// `p * num / den` rounded toward zero.
pub open spec fn scale_toward_zero(p: int, num: int, den: int) -> int {
    if p >= 0 { p * num / den } else { -((-p) * num / den) }
}

/// A frame point in window pixels: scaled by window size over frame size
/// (sizes of zero read as one), rounded toward zero, then truncated to
/// `i32`.
pub open spec fn spec_frame_to_window(p: (i32, i32), frame_size: (u32, u32), window_size: (u32, u32)) -> (i32, i32) {
    (
        scale_toward_zero(p.0 as int, at_least_one(window_size.0), at_least_one(frame_size.0)) as i32,
        scale_toward_zero(p.1 as int, at_least_one(window_size.1), at_least_one(frame_size.1)) as i32,
    )
}

fn scale_i64(p: i32, num: u32, den: u32) -> (r: i32)
    ensures
        r == scale_toward_zero(p as int, at_least_one(num), at_least_one(den)) as i32,
{
    let n: i64 = if num >= 1 { num as i64 } else { 1 };
    let d: i64 = if den >= 1 { den as i64 } else { 1 };
    let a: i64 = if p >= 0 { p as i64 } else { -(p as i64) };
    assert(0 <= a * n <= 0x8000_0000 * 0xffff_ffff) by (nonlinear_arith)
        requires
            0 <= a <= 0x8000_0000,
            1 <= n <= 0xffff_ffff,
    ;
    let q: i64 = a * n / d;
    assert(0 <= q <= a * n) by (nonlinear_arith)
        requires
            q == (a * n) as int / (d as int),
            d >= 1,
            a * n >= 0,
    ;
    let s: i64 = if p >= 0 { q } else { -q };
    #[verifier::truncate]
    (s as i32)
}

/// The lines of a text annotation: `\r\n`, a lone `\r` and `\n` each end a
/// line, and what follows the last break (possibly nothing) is the last
/// line.
pub open spec fn spec_text_lines(s: Seq<char>) -> Seq<Seq<char>>
    decreases s.len(),
{
    if s.len() == 0 {
        seq![Seq::empty()]
    } else if s[0] == '\n' || s[0] == '\r' {
        let step: int = if s[0] == '\r' && s.len() > 1 && s[1] == '\n' { 2 } else { 1 };
        seq![Seq::empty()] + spec_text_lines(s.skip(step))
    } else {
        let rest = spec_text_lines(s.drop_first());
        seq![seq![s[0]] + rest[0]] + rest.drop_first()
    }
}

proof fn lemma_text_lines_nonempty(s: Seq<char>)
    ensures
        spec_text_lines(s).len() >= 1,
    decreases s.len(),
{
    if s.len() > 0 {
        if s[0] == '\n' || s[0] == '\r' {
        } else {
            lemma_text_lines_nonempty(s.drop_first());
        }
    }
}

pub open spec fn line_views(lines: Seq<String>) -> Seq<Seq<char>> {
    lines.map_values(|l: String| l@)
}

/// Split a text annotation into its lines.
pub fn text_lines(content: &str) -> (r: Vec<String>)
    ensures
        line_views(r@) == spec_text_lines(content@),
{
    let s = chars_of(content);
    let mut lines: Vec<String> = Vec::new();
    let mut cur = String::new();
    let mut i: usize = 0;
    proof {
        assert(s@.skip(0) =~= s@);
        lemma_text_lines_nonempty(s@);
        assert(line_views(lines@) + seq![cur@ + spec_text_lines(s@)[0]] + spec_text_lines(s@).drop_first()
            =~= spec_text_lines(s@));
    }
    while i < s.len()
        invariant
            0 <= i <= s@.len(),
            s@ == content@,
            spec_text_lines(s@) == line_views(lines@) + seq![cur@ + spec_text_lines(s@.skip(i as int))[0]]
                + spec_text_lines(s@.skip(i as int)).drop_first(),
        decreases s@.len() - i,
    {
        let ghost t = s@.skip(i as int);
        proof {
            lemma_text_lines_nonempty(t);
            assert(t[0] == s@[i as int]);
        }
        let c = s[i];
        if c == '\n' || c == '\r' {
            let step: usize = if c == '\r' && i + 1 < s.len() && s[i + 1] == '\n' { 2 } else { 1 };
            let ghost next = s@.skip((i + step) as int);
            proof {
                if step == 2 {
                    assert(t[1] == s@[i + 1]);
                }
                assert(t.skip(step as int) =~= next);
                lemma_text_lines_nonempty(next);
                assert(spec_text_lines(t) == seq![Seq::<char>::empty()] + spec_text_lines(next));
            }
            let ghost before = line_views(lines@);
            let ghost line = cur@;
            lines.push(cur);
            cur = String::new();
            proof {
                assert(line_views(lines@) =~= before.push(line));
                assert(line + Seq::<char>::empty() =~= line);
                assert(line_views(lines@) + seq![cur@ + spec_text_lines(next)[0]] + spec_text_lines(next).drop_first()
                    =~= before + seq![line + spec_text_lines(t)[0]] + spec_text_lines(t).drop_first());
            }
            i = i + step;
        } else {
            let ghost next = s@.skip(i + 1);
            proof {
                assert(t.drop_first() =~= next);
                lemma_text_lines_nonempty(next);
            }
            let ghost line = cur@;
            push_char(&mut cur, c);
            proof {
                assert(cur@ + spec_text_lines(next)[0] =~= line + spec_text_lines(t)[0]);
                assert(spec_text_lines(next).drop_first() =~= spec_text_lines(t).drop_first());
            }
            i = i + 1;
        }
    }
    let ghost before = line_views(lines@);
    proof {
        assert(s@.skip(i as int) =~= Seq::<char>::empty());
        assert(cur@ + Seq::<char>::empty() =~= cur@);
    }
    lines.push(cur);
    proof {
        assert(line_views(lines@) =~= spec_text_lines(s@));
    }
    lines
}

/// Map a frame point to window pixels.
pub fn frame_to_window(p: (i32, i32), frame_size: (u32, u32), window_size: (u32, u32)) -> (r: (i32, i32))
    ensures
        r == spec_frame_to_window(p, frame_size, window_size),
{
    (scale_i64(p.0, window_size.0, frame_size.0), scale_i64(p.1, window_size.1, frame_size.1))
}

/// (xx, yy) is a pixel of the image, tested against the sizes `w` and `h`.
pub open spec fn in_image(xx: int, yy: int, w: int, h: int) -> bool {
    0 <= xx && 0 <= yy && xx < w && yy < h
}

/// The image after painting: every painted pixel takes `color`, the rest
/// keep their bytes.
pub open spec fn image_painted(old: RgbaFrame, new: RgbaFrame, painted: spec_fn(int, int) -> bool, color: [u8; 4]) -> bool {
    &&& new.width == old.width && new.height == old.height && new.wf()
    &&& forall|xx: int, yy: int, c: int|
        0 <= xx < old.width && 0 <= yy < old.height && 0 <= c < 4 ==> #[trigger] new.byte(xx, yy, c)
            == if painted(xx, yy) {
            color[c]
        } else {
            old.byte(xx, yy, c)
        }
}

/// Set pixel (x, y) of `img` to `color` when `0 <= x < w` and `0 <= y < h`.
fn put_clamped(img: &mut RgbaFrame, x: i32, y: i32, w: i32, h: i32, color: [u8; 4])
    requires
        old(img).wf(),
        w <= old(img).width,
        h <= old(img).height,
    ensures
        image_painted(*old(img), *final(img), |xx: int, yy: int| xx == x && yy == y && in_image(xx, yy, w as int, h as int), color),
{
    if x >= 0 && y >= 0 && x < w && y < h {
        let ghost before = *img;
        let n = img.data.len();
        proof {
            lemma_idx_bounds(x as int, y as int, img.width as int, img.height as int);
            assert(y * img.width <= idx(x as int, y as int, img.width as int));
            assert(idx(x as int, y as int, img.width as int) * 4 + 3 < n);
        }
        let base = (y as usize * img.width as usize + x as usize) * 4;
        img.data.set(base, color[0]);
        img.data.set(base + 1, color[1]);
        img.data.set(base + 2, color[2]);
        img.data.set(base + 3, color[3]);
        proof {
            assert forall|xx: int, yy: int, c: int|
                0 <= xx < before.width && 0 <= yy < before.height && 0 <= c < 4 implies #[trigger] img.byte(
                xx,
                yy,
                c,
            ) == if xx == x && yy == y {
                color[c]
            } else {
                before.byte(xx, yy, c)
            } by {
                lemma_idx_bounds(xx, yy, before.width as int, before.height as int);
                if xx != x || yy != y {
                    crate::pixels::lemma_idx_injective_contra(xx, yy, x as int, y as int, before.width as int);
                }
            }
        }
    }
}

/// (xx, yy) lies in the box and on `img`, its sizes read as `i32`.
pub open spec fn box_on_image(img: RgbaFrame, xx: int, yy: int, x: int, y: int, bw: int, bh: int) -> bool {
    in_box(xx, yy, x, y, bw, bh) && in_image(xx, yy, as_i32(img.width), as_i32(img.height))
}

/// Paint the `bw` by `bh` box at (x, y) of `img` with `color`, clipped to
/// the image.
fn fill_box_image(img: &mut RgbaFrame, x: i32, y: i32, bw: i32, bh: i32, color: [u8; 4])
    requires
        old(img).wf(),
        bw > 0 ==> in_i32(x + bw),
        bh > 0 ==> in_i32(y + bh),
    ensures
        image_painted(*old(img), *final(img), |xx: int, yy: int| box_on_image(*old(img), xx, yy, x as int, y as int, bw as int, bh as int), color),
{
    let ghost orig = *img;
    let w = u32_as_i32(img.width);
    let h = u32_as_i32(img.height);
    let mut dy: i32 = 0;
    while dy < bh
        invariant
            0 <= dy <= bh || (bh <= 0 && dy == 0),
            orig.wf(),
            w == as_i32(orig.width) && h == as_i32(orig.height),
            bw > 0 ==> in_i32(x + bw),
            bh > 0 ==> in_i32(y + bh),
            image_painted(orig, *img, |xx: int, yy: int| box_on_image(orig, xx, yy, x as int, y as int, bw as int, dy as int), color),
        decreases bh - dy,
    {
        let mut dx: i32 = 0;
        while dx < bw
            invariant
                0 <= dy < bh,
                0 <= dx <= bw || (bw <= 0 && dx == 0),
                orig.wf(),
                w == as_i32(orig.width) && h == as_i32(orig.height),
                bw > 0 ==> in_i32(x + bw),
                bh > 0 ==> in_i32(y + bh),
                image_painted(
                    orig,
                    *img,
                    |xx: int, yy: int|
                        (in_box(xx, yy, x as int, y as int, bw as int, dy as int) || (yy == y + dy && x <= xx
                            < x + dx)) && in_image(xx, yy, w as int, h as int),
                    color,
                ),
            decreases bw - dx,
        {
            let ghost before = *img;
            put_clamped(img, x + dx, y + dy, w, h, color);
            dx = dx + 1;
        }
        dy = dy + 1;
    }
}

/// The four bands of a rectangle outline `thickness` pixels wide, each
/// centered on an edge of `rect` (its last row and column included).
pub open spec fn on_rect_outline(xx: int, yy: int, rect: Rect, thickness: int) -> bool {
    let half = thickness / 2;
    ||| in_box(xx, yy, rect.x as int, rect.y - half, rect.w as int, thickness)
    ||| in_box(xx, yy, rect.x as int, rect.y + rect.h - 1 - half, rect.w as int, thickness)
    ||| in_box(xx, yy, rect.x - half, rect.y as int, thickness, rect.h as int)
    ||| in_box(xx, yy, rect.x + rect.w - 1 - half, rect.y as int, thickness, rect.h as int)
}

/// The outline's arithmetic does not overflow.
pub open spec fn outline_fits(rect: Rect, thickness: i32) -> bool {
    &&& in_i32(rect.x + rect.w) && in_i32(rect.y + rect.h)
    &&& in_i32(rect.x - thickness) && in_i32(rect.y - thickness)
    &&& in_i32(rect.x + rect.w + thickness) && in_i32(rect.y + rect.h + thickness)
}

/// Outline `rect` on `img` with bands `thickness` pixels wide. Nothing is
/// drawn for an empty rectangle or a thickness below one.
pub fn draw_rect_outline_on_image(img: &mut RgbaFrame, rect: Rect, color: [u8; 4], thickness: i32)
    requires
        old(img).wf(),
        outline_fits(rect, thickness),
    ensures
        image_painted(
            *old(img),
            *final(img),
            |xx: int, yy: int|
                rect.w > 0 && rect.h > 0 && thickness > 0 && on_rect_outline(xx, yy, rect, thickness as int)
                    && in_image(xx, yy, as_i32(old(img).width), as_i32(old(img).height)),
            color,
        ),
{
    if rect.w <= 0 || rect.h <= 0 || thickness <= 0 {
        return;
    }
    let half = thickness / 2;
    fill_box_image(img, rect.x, rect.y - half, rect.w, thickness, color);
    fill_box_image(img, rect.x, rect.y + rect.h - 1 - half, rect.w, thickness, color);
    fill_box_image(img, rect.x - half, rect.y, thickness, rect.h, color);
    fill_box_image(img, rect.x + rect.w - 1 - half, rect.y, thickness, rect.h, color);
}

/// The four bands of an outline through the corners `tl` and `br`
/// (inclusive), `thickness` pixels wide.
pub open spec fn on_corner_outline(xx: int, yy: int, tl: (i32, i32), br: (i32, i32), thickness: int) -> bool {
    let half = thickness / 2;
    let (x0, y0, x1, y1) = (tl.0 as int, tl.1 as int, br.0 as int, br.1 as int);
    ||| in_box(xx, yy, x0, y0 - half, x1 - x0 + 1, thickness)
    ||| in_box(xx, yy, x0, y1 - half, x1 - x0 + 1, thickness)
    ||| in_box(xx, yy, x0 - half, y0, thickness, y1 - y0 + 1)
    ||| in_box(xx, yy, x1 - half, y0, thickness, y1 - y0 + 1)
}

pub open spec fn corner_outline_fits(tl: (i32, i32), br: (i32, i32), thickness: i32) -> bool {
    &&& in_i32(br.0 - tl.0) && in_i32(br.1 - tl.1) && in_i32(br.0 - tl.0 + 1) && in_i32(br.1 - tl.1 + 1)
    &&& in_i32(tl.0 - thickness) && in_i32(tl.1 - thickness)
    &&& in_i32(br.0 - thickness) && in_i32(br.1 - thickness)
    &&& in_i32(br.0 + 1) && in_i32(br.1 + 1)
    &&& in_i32(tl.0 + thickness) && in_i32(tl.1 + thickness)
    &&& in_i32(br.0 + thickness) && in_i32(br.1 + thickness)
}

/// Outline the box with corners `tl` and `br` in a window buffer.
pub fn draw_rect_outline_buf(buf: &mut [u32], w: u32, h: u32, tl: (i32, i32), br: (i32, i32), color: u32, thickness: i32)
    requires
        buf_ok(old(buf)@.len() as int, w, h),
        corner_outline_fits(tl, br, thickness),
    ensures
        final(buf)@.len() == old(buf)@.len(),
        forall|xx: int, yy: int|
            0 <= xx < w && 0 <= yy < h ==> #[trigger] final(buf)@[idx(xx, yy, w as int)] == if thickness
                > 0 && on_corner_outline(xx, yy, tl, br, thickness as int) && on_canvas(xx, yy, w, h) {
                color
            } else {
                old(buf)@[idx(xx, yy, w as int)]
            },
{
    if thickness <= 0 {
        return;
    }
    let (x0, y0) = tl;
    let (x1, y1) = br;
    let half = thickness / 2;
    let ghost b0 = buf@;
    fill_rect(buf, w, h, x0, y0 - half, x1 - x0 + 1, thickness, color);
    let ghost b1 = buf@;
    fill_rect(buf, w, h, x0, y1 - half, x1 - x0 + 1, thickness, color);
    let ghost b2 = buf@;
    fill_rect(buf, w, h, x0 - half, y0, thickness, y1 - y0 + 1, color);
    let ghost b3 = buf@;
    fill_rect(buf, w, h, x1 - half, y0, thickness, y1 - y0 + 1, color);
}

/// Set pixel (x, y) of `img` to `px`.
pub(crate) fn set_pixel(img: &mut RgbaFrame, x: u32, y: u32, px: [u8; 4])
    requires
        old(img).wf(),
        x < old(img).width,
        y < old(img).height,
    ensures
        image_painted(*old(img), *final(img), |xx: int, yy: int| xx == x && yy == y, px),
{
    let ghost before = *img;
    let n = img.data.len();
    proof {
        lemma_idx_bounds(x as int, y as int, img.width as int, img.height as int);
        assert(y * img.width <= idx(x as int, y as int, img.width as int));
    }
    let base = (y as usize * img.width as usize + x as usize) * 4;
    img.data.set(base, px[0]);
    img.data.set(base + 1, px[1]);
    img.data.set(base + 2, px[2]);
    img.data.set(base + 3, px[3]);
    proof {
        assert forall|xx: int, yy: int, c: int|
            0 <= xx < before.width && 0 <= yy < before.height && 0 <= c < 4 implies #[trigger] img.byte(
            xx,
            yy,
            c,
        ) == if xx == x && yy == y {
            px[c]
        } else {
            before.byte(xx, yy, c)
        } by {
            lemma_idx_bounds(xx, yy, before.width as int, before.height as int);
            if xx != x || yy != y {
                crate::pixels::lemma_idx_injective_contra(xx, yy, x as int, y as int, before.width as int);
            }
        }
    }
}

/// Sum of channel `c` over row `y` from column `xa` up to `xb`.
pub open spec fn row_sum(img: RgbaFrame, c: int, y: int, xa: int, xb: int) -> int
    decreases xb - xa,
{
    if xb <= xa {
        0
    } else {
        row_sum(img, c, y, xa, xb - 1) + img.byte(xb - 1, y, c)
    }
}

/// Sum of channel `c` over the box `[xa, xb) x [ya, yb)`.
pub open spec fn box_sum(img: RgbaFrame, c: int, xa: int, xb: int, ya: int, yb: int) -> int
    decreases yb - ya,
{
    if yb <= ya {
        0
    } else {
        box_sum(img, c, xa, xb, ya, yb - 1) + row_sum(img, c, yb - 1, xa, xb)
    }
}

proof fn lemma_row_sum_bound(img: RgbaFrame, c: int, y: int, xa: int, xb: int)
    requires
        xa <= xb,
    ensures
        0 <= row_sum(img, c, y, xa, xb) <= 255 * (xb - xa),
    decreases xb - xa,
{
    if xb > xa {
        lemma_row_sum_bound(img, c, y, xa, xb - 1);
    }
}

proof fn lemma_box_sum_bound(img: RgbaFrame, c: int, xa: int, xb: int, ya: int, yb: int)
    requires
        xa <= xb,
        ya <= yb,
    ensures
        0 <= box_sum(img, c, xa, xb, ya, yb) <= 255 * ((xb - xa) * (yb - ya)),
    decreases yb - ya,
{
    if yb > ya {
        lemma_box_sum_bound(img, c, xa, xb, ya, yb - 1);
        lemma_row_sum_bound(img, c, yb - 1, xa, xb);
        assert((xb - xa) * (yb - 1 - ya) + (xb - xa) == (xb - xa) * (yb - ya)) by (nonlinear_arith);
    }
}

/// The first coordinate of the block holding `v`, blocks being `bs` wide
/// and starting at `v0`.
pub open spec fn block_start(v: int, v0: int, bs: int) -> int {
    v0 + ((v - v0) / bs) * bs
}

pub open spec fn min(a: int, b: int) -> int {
    if a <= b { a } else { b }
}

pub open spec fn max(a: int, b: int) -> int {
    if a >= b { a } else { b }
}

/// The region a mosaic of `rect` covers on an image of `w` by `h` pixels:
/// (x0, y0, x1, y1).
pub open spec fn mosaic_region(rect: Rect, w: int, h: int) -> (int, int, int, int) {
    (max(rect.x as int, 0), max(rect.y as int, 0), min(rect.x + rect.w, w), min(rect.y + rect.h, h))
}

/// Channel `c` of the block of `img` holding (xx, yy): the integer mean over
/// the block, blocks being `bs` square from the region's top-left and cut
/// at its far edges.
pub open spec fn block_mean(img: RgbaFrame, c: int, xx: int, yy: int, reg: (int, int, int, int), bs: int) -> u8 {
    let (x0, y0, x1, y1) = reg;
    let bx = block_start(xx, x0, bs);
    let by = block_start(yy, y0, bs);
    let bx1 = min(bx + bs, x1);
    let by1 = min(by + bs, y1);
    (box_sum(img, c, bx, bx1, by, by1) / ((bx1 - bx) * (by1 - by))) as u8
}

pub open spec fn in_region(xx: int, yy: int, reg: (int, int, int, int)) -> bool {
    reg.0 <= xx < reg.2 && reg.1 <= yy < reg.3
}

/// `new` is `old` with the pixels satisfying `done` replaced by their block
/// means (taken over `orig`).
pub open spec fn mosaic_state(orig: RgbaFrame, new: RgbaFrame, reg: (int, int, int, int), bs: int, done: spec_fn(int, int) -> bool) -> bool {
    &&& new.width == orig.width && new.height == orig.height && new.wf()
    &&& forall|xx: int, yy: int, c: int|
        0 <= xx < orig.width && 0 <= yy < orig.height && 0 <= c < 4 ==> #[trigger] new.byte(xx, yy, c)
            == if done(xx, yy) {
            block_mean(orig, c, xx, yy, reg, bs)
        } else {
            orig.byte(xx, yy, c)
        }
}

proof fn lemma_block_start(v: int, v0: int, bs: int, k: int)
    requires
        bs > 0,
        k >= 0,
        v0 + k * bs <= v < v0 + k * bs + bs,
    ensures
        block_start(v, v0, bs) == v0 + k * bs,
{
    assert((v - v0) / bs == k) by (nonlinear_arith)
        requires
            bs > 0,
            k * bs <= v - v0 < k * bs + bs,
    ;
}

/// The block size reads as an `i32`, and the block steps past the far
/// edges of `rect` stay in `i32`.
pub open spec fn mosaic_fits(rect: Rect, block_size: u32) -> bool {
    &&& block_size <= i32::MAX
    &&& in_i32(rect.x + rect.w + block_size) && in_i32(rect.y + rect.h + block_size)
}

/// The image holds at most 2^56 pixels, so that any block's channel sums
/// (at most 255 per pixel) fit the `u64` accumulators.
pub open spec fn area_fits(img: RgbaFrame) -> bool {
    img.width * img.height <= 0x0100_0000_0000_0000
}

proof fn lemma_block_area(bw: int, bh: int, w: int, h: int)
    requires
        0 <= bw <= w,
        0 <= bh <= h,
        w * h <= 0x0100_0000_0000_0000,
    ensures
        bw * bh <= 0x0100_0000_0000_0000,
{
    assert(bw * bh <= w * h) by (nonlinear_arith)
        requires
            0 <= bw <= w,
            0 <= bh <= h,
    ;
}

/// Channel sums and pixel count of the block `[bx, bx1) x [by, by1)` of
/// `img`.
fn block_sums(img: &RgbaFrame, bx: i32, bx1: i32, by: i32, by1: i32) -> (r: ([u64; 4], u64))
    requires
        img.wf(),
        0 <= bx < bx1 <= img.width,
        0 <= by < by1 <= img.height,
        (bx1 - bx) * (by1 - by) <= 0x0100_0000_0000_0000,
    ensures
        forall|c: int| 0 <= c < 4 ==> r.0[c] == box_sum(*img, c, bx as int, bx1 as int, by as int, by1 as int),
        r.1 == (bx1 - bx) * (by1 - by),
{
    let mut s0: u64 = 0;
    let mut s1: u64 = 0;
    let mut s2: u64 = 0;
    let mut s3: u64 = 0;
    let mut count: u64 = 0;
    let n = img.data.len();
    let mut yy = by;
    while yy < by1
        invariant
            img.wf(),
            n == img.data@.len(),
            0 <= bx < bx1 <= img.width,
            0 <= by <= yy <= by1 <= img.height,
            (bx1 - bx) * (by1 - by) <= 0x0100_0000_0000_0000,
            s0 == box_sum(*img, 0, bx as int, bx1 as int, by as int, yy as int),
            s1 == box_sum(*img, 1, bx as int, bx1 as int, by as int, yy as int),
            s2 == box_sum(*img, 2, bx as int, bx1 as int, by as int, yy as int),
            s3 == box_sum(*img, 3, bx as int, bx1 as int, by as int, yy as int),
            count == (bx1 - bx) * (yy - by),
        decreases by1 - yy,
    {
        proof {
            assert((bx1 - bx) * (yy - by) <= 0x0100_0000_0000_0000) by (nonlinear_arith)
                requires
                    0 <= bx1 - bx,
                    0 <= yy - by <= by1 - by,
                    (bx1 - bx) * (by1 - by) <= 0x0100_0000_0000_0000,
            ;
            lemma_box_sum_bound(*img, 0, bx as int, bx1 as int, by as int, yy as int);
            lemma_box_sum_bound(*img, 1, bx as int, bx1 as int, by as int, yy as int);
            lemma_box_sum_bound(*img, 2, bx as int, bx1 as int, by as int, yy as int);
            lemma_box_sum_bound(*img, 3, bx as int, bx1 as int, by as int, yy as int);
        }
        let mut xx = bx;
        while xx < bx1
            invariant
                img.wf(),
                n == img.data@.len(),
                0 <= bx <= xx <= bx1 <= img.width,
                0 <= by <= yy < by1 <= img.height,
                (bx1 - bx) * (by1 - by) <= 0x0100_0000_0000_0000,
                (bx1 - bx) * (yy - by) <= 0x0100_0000_0000_0000,
                s0 == box_sum(*img, 0, bx as int, bx1 as int, by as int, yy as int) + row_sum(*img, 0, yy as int, bx as int, xx as int),
                s1 == box_sum(*img, 1, bx as int, bx1 as int, by as int, yy as int) + row_sum(*img, 1, yy as int, bx as int, xx as int),
                s2 == box_sum(*img, 2, bx as int, bx1 as int, by as int, yy as int) + row_sum(*img, 2, yy as int, bx as int, xx as int),
                s3 == box_sum(*img, 3, bx as int, bx1 as int, by as int, yy as int) + row_sum(*img, 3, yy as int, bx as int, xx as int),
                0 <= box_sum(*img, 0, bx as int, bx1 as int, by as int, yy as int) <= 255 * ((bx1 - bx) * (yy - by)),
                0 <= box_sum(*img, 1, bx as int, bx1 as int, by as int, yy as int) <= 255 * ((bx1 - bx) * (yy - by)),
                0 <= box_sum(*img, 2, bx as int, bx1 as int, by as int, yy as int) <= 255 * ((bx1 - bx) * (yy - by)),
                0 <= box_sum(*img, 3, bx as int, bx1 as int, by as int, yy as int) <= 255 * ((bx1 - bx) * (yy - by)),
                count == (bx1 - bx) * (yy - by) + (xx - bx),
            decreases bx1 - xx,
        {
            proof {
                lemma_idx_bounds(xx as int, yy as int, img.width as int, img.height as int);
                assert(yy * img.width <= idx(xx as int, yy as int, img.width as int));
                lemma_row_sum_bound(*img, 0, yy as int, bx as int, xx as int);
                lemma_row_sum_bound(*img, 1, yy as int, bx as int, xx as int);
                lemma_row_sum_bound(*img, 2, yy as int, bx as int, xx as int);
                lemma_row_sum_bound(*img, 3, yy as int, bx as int, xx as int);
            }
            let base = (yy as usize * img.width as usize + xx as usize) * 4;
            s0 = s0 + img.data[base] as u64;
            s1 = s1 + img.data[base + 1] as u64;
            s2 = s2 + img.data[base + 2] as u64;
            s3 = s3 + img.data[base + 3] as u64;
            count = count + 1;
            xx = xx + 1;
        }
        proof {
            assert((bx1 - bx) * (yy - by) + (bx1 - bx) == (bx1 - bx) * (yy + 1 - by)) by (nonlinear_arith);
        }
        yy = yy + 1;
    }
    ([s0, s1, s2, s3], count)
}

/// Paint the box `[bx, bx1) x [by, by1)` of `img` with `px`.
fn fill_block(img: &mut RgbaFrame, bx: i32, bx1: i32, by: i32, by1: i32, px: [u8; 4])
    requires
        old(img).wf(),
        0 <= bx <= bx1 <= old(img).width,
        0 <= by <= by1 <= old(img).height,
    ensures
        image_painted(*old(img), *final(img), |xx: int, yy: int| bx <= xx < bx1 && by <= yy < by1, px),
{
    let ghost orig = *img;
    let mut yy = by;
    while yy < by1
        invariant
            orig.wf(),
            0 <= bx <= bx1 <= orig.width,
            0 <= by <= yy <= by1 <= orig.height,
            image_painted(orig, *img, |xx: int, y: int| bx <= xx < bx1 && by <= y < yy, px),
        decreases by1 - yy,
    {
        let mut xx = bx;
        while xx < bx1
            invariant
                orig.wf(),
                0 <= bx <= xx <= bx1 <= orig.width,
                0 <= by <= yy < by1 <= orig.height,
                image_painted(
                    orig,
                    *img,
                    |x: int, y: int| bx <= x < bx1 && (by <= y < yy || (y == yy && x < xx)),
                    px,
                ),
            decreases bx1 - xx,
        {
            set_pixel(img, xx as u32, yy as u32, px);
            xx = xx + 1;
        }
        yy = yy + 1;
    }
}

proof fn lemma_row_sum_eq(a: RgbaFrame, b: RgbaFrame, c: int, y: int, xa: int, xb: int)
    requires
        forall|xx: int| xa <= xx < xb ==> #[trigger] a.byte(xx, y, c) == b.byte(xx, y, c),
    ensures
        row_sum(a, c, y, xa, xb) == row_sum(b, c, y, xa, xb),
    decreases xb - xa,
{
    if xb > xa {
        lemma_row_sum_eq(a, b, c, y, xa, xb - 1);
    }
}

proof fn lemma_box_sum_eq(a: RgbaFrame, b: RgbaFrame, c: int, xa: int, xb: int, ya: int, yb: int)
    requires
        forall|xx: int, yy: int| xa <= xx < xb && ya <= yy < yb ==> #[trigger] a.byte(xx, yy, c) == b.byte(xx, yy, c),
    ensures
        box_sum(a, c, xa, xb, ya, yb) == box_sum(b, c, xa, xb, ya, yb),
    decreases yb - ya,
{
    if yb > ya {
        lemma_box_sum_eq(a, b, c, xa, xb, ya, yb - 1);
        assert forall|xx: int| xa <= xx < xb implies #[trigger] a.byte(xx, yb - 1, c) == b.byte(xx, yb - 1, c) by {
            assert(a.byte(xx, yb - 1, c) == b.byte(xx, yb - 1, c));
        }
        lemma_row_sum_eq(a, b, c, yb - 1, xa, xb);
    }
}

fn min_i32(a: i32, b: i32) -> (r: i32)
    ensures
        r == min(a as int, b as int),
{
    if a <= b { a } else { b }
}

fn max_i32(a: i32, b: i32) -> (r: i32)
    ensures
        r == max(a as int, b as int),
{
    if a >= b { a } else { b }
}

/// The mean of `sum` over `count` pixels of at most 255 each.
fn mean_u8(sum: u64, count: u64) -> (r: u8)
    requires
        count > 0,
        sum <= 255 * count,
    ensures
        r == (sum / count) as u8,
        r == sum / count,
{
    assert(sum / count <= 255) by (nonlinear_arith)
        requires
            count > 0,
            sum <= 255 * count,
    ;
    (sum / count) as u8
}

/// Pixelate `rect` of `img`: split it (clipped to the image) into
/// `block_size` squares from its top-left corner, cut at its far edges, and
/// give every pixel of a block the block's mean color.
pub fn apply_mosaic_on_image(img: &mut RgbaFrame, rect: Rect, block_size: u32)
    requires
        old(img).wf(),
        area_fits(*old(img)),
        mosaic_fits(rect, block_size),
    ensures
        final(img).width == old(img).width && final(img).height == old(img).height,
        final(img).wf(),
        forall|xx: int, yy: int, c: int|
            0 <= xx < old(img).width && 0 <= yy < old(img).height && 0 <= c < 4 ==> #[trigger] final(img).byte(
                xx,
                yy,
                c,
            ) == if rect.w > 0 && rect.h > 0 && block_size > 0 && in_region(
                xx,
                yy,
                mosaic_region(rect, as_i32(old(img).width), as_i32(old(img).height)),
            ) {
                block_mean(
                    *old(img),
                    c,
                    xx,
                    yy,
                    mosaic_region(rect, as_i32(old(img).width), as_i32(old(img).height)),
                    block_size as int,
                )
            } else {
                old(img).byte(xx, yy, c)
            },
{
    if rect.w <= 0 || rect.h <= 0 || block_size == 0 {
        return;
    }
    let ghost orig = *img;
    let bs = block_size as i32;
    let iw = u32_as_i32(img.width);
    let ih = u32_as_i32(img.height);
    let x0 = max_i32(rect.x, 0);
    let y0 = max_i32(rect.y, 0);
    let x1 = min_i32(rect.x + rect.w, iw);
    let y1 = min_i32(rect.y + rect.h, ih);
    let ghost reg = (x0 as int, y0 as int, x1 as int, y1 as int);
    assert(reg == mosaic_region(rect, as_i32(orig.width), as_i32(orig.height)));
    let mut by = y0;
    let ghost mut ky: int = 0;
    while by < y1
        invariant
            orig.wf(),
            0 < bs,
            area_fits(orig),
            mosaic_fits(rect, block_size),
            bs == block_size,
            reg == (x0 as int, y0 as int, x1 as int, y1 as int),
            0 <= x0 && 0 <= y0,
            x1 <= as_i32(orig.width) <= orig.width,
            y1 <= as_i32(orig.height) <= orig.height,
            x1 <= rect.x + rect.w && y1 <= rect.y + rect.h,
            ky >= 0,
            by == y0 + ky * bs,
            mosaic_state(orig, *img, reg, bs as int, |xx: int, yy: int| in_region(xx, yy, reg) && yy < by),
        decreases y1 + bs - by,
    {
        let by1 = min_i32(by + bs, y1);
        let mut bx = x0;
        let ghost mut kx: int = 0;
        while bx < x1
            invariant
                orig.wf(),
                0 < bs,
                area_fits(orig),
                mosaic_fits(rect, block_size),
                reg == (x0 as int, y0 as int, x1 as int, y1 as int),
                0 <= x0 && 0 <= y0,
                x1 <= as_i32(orig.width) <= orig.width,
                y1 <= as_i32(orig.height) <= orig.height,
                x1 <= rect.x + rect.w && y1 <= rect.y + rect.h,
                ky >= 0,
                by == y0 + ky * bs,
                by < y1,
                bs == block_size,
                by1 == min(by + bs, y1 as int),
                kx >= 0,
                bx == x0 + kx * bs,
                mosaic_state(
                    orig,
                    *img,
                    reg,
                    bs as int,
                    |xx: int, yy: int| in_region(xx, yy, reg) && (yy < by || (yy < by + bs && xx < bx)),
                ),
            decreases x1 + bs - bx,
        {
            let bx1 = min_i32(bx + bs, x1);
            proof {
                assert forall|xx: int, yy: int, c: int|
                    bx <= xx < bx1 && by <= yy < by1 && 0 <= c < 4 implies #[trigger] img.byte(xx, yy, c)
                    == orig.byte(xx, yy, c) by {
                    assert(!(in_region(xx, yy, reg) && (yy < by || (yy < by + bs && xx < bx))));
                }
                lemma_box_sum_eq(*img, orig, 0, bx as int, bx1 as int, by as int, by1 as int);
                lemma_box_sum_eq(*img, orig, 1, bx as int, bx1 as int, by as int, by1 as int);
                lemma_box_sum_eq(*img, orig, 2, bx as int, bx1 as int, by as int, by1 as int);
                lemma_box_sum_eq(*img, orig, 3, bx as int, bx1 as int, by as int, by1 as int);
            }
            proof {
                lemma_block_area(bx1 - bx, by1 - by, orig.width as int, orig.height as int);
            }
            let (sums, count) = block_sums(img, bx, bx1, by, by1);
            assert(count > 0) by (nonlinear_arith)
                requires
                    count == (bx1 - bx) * (by1 - by),
                    bx < bx1,
                    by < by1,
            ;
            if count == 0 {
                bx = bx + bs;
                proof {
                    kx = kx + 1;
                }
                continue;
            }
            proof {
                lemma_box_sum_bound(orig, 0, bx as int, bx1 as int, by as int, by1 as int);
                lemma_box_sum_bound(orig, 1, bx as int, bx1 as int, by as int, by1 as int);
                lemma_box_sum_bound(orig, 2, bx as int, bx1 as int, by as int, by1 as int);
                lemma_box_sum_bound(orig, 3, bx as int, bx1 as int, by as int, by1 as int);
            }
            let avg = [
                mean_u8(sums[0], count),
                mean_u8(sums[1], count),
                mean_u8(sums[2], count),
                mean_u8(sums[3], count),
            ];
            let ghost before = *img;
            fill_block(img, bx, bx1, by, by1, avg);
            proof {
                assert forall|xx: int, yy: int, c: int|
                    0 <= xx < orig.width && 0 <= yy < orig.height && 0 <= c < 4 implies #[trigger] img.byte(
                    xx,
                    yy,
                    c,
                ) == if in_region(xx, yy, reg) && (yy < by || (yy < by + bs && xx < bx + bs)) {
                    block_mean(orig, c, xx, yy, reg, bs as int)
                } else {
                    orig.byte(xx, yy, c)
                } by {
                    if bx <= xx < bx1 && by <= yy < by1 {
                        lemma_block_start(xx, x0 as int, bs as int, kx);
                        lemma_block_start(yy, y0 as int, bs as int, ky);
                        assert(avg[c] == (box_sum(orig, c, bx as int, bx1 as int, by as int, by1 as int)
                            / (count as int)) as u8);
                    }
                }
            }
            bx = bx + bs;
            proof {
                assert(x0 + (kx + 1) * bs == x0 + kx * bs + bs) by (nonlinear_arith);
                kx = kx + 1;
            }
        }
        by = by + bs;
        proof {
            assert(y0 + (ky + 1) * bs == y0 + ky * bs + bs) by (nonlinear_arith);
            ky = ky + 1;
        }
    }
}


/// How many `bs`-wide blocks cover `[v0, v1)`.
pub open spec fn block_count(v0: int, v1: int, bs: int) -> int {
    if v1 > v0 { (v1 - v0 + bs - 1) / bs } else { 0 }
}

/// Block (row `j`, column `i`) of the region `reg`: `(bx, by, bx1, by1)`,
/// cut at the region's far edges.
pub open spec fn block_box(reg: (int, int, int, int), bs: int, j: int, i: int) -> (int, int, int, int) {
    let bx = reg.0 + i * bs;
    let by = reg.1 + j * bs;
    (bx, by, min(bx + bs, reg.2), min(by + bs, reg.3))
}

/// The color a block of `frame` is painted with: the integer mean of each
/// of red, green and blue over the block, packed as 0RGB.
pub open spec fn block_color(frame: RgbaFrame, reg: (int, int, int, int), bs: int, j: int, i: int) -> u32 {
    let (bx, by, bx1, by1) = block_box(reg, bs, j, i);
    let n = (bx1 - bx) * (by1 - by);
    swizzle(
        (box_sum(frame, 0, bx, bx1, by, by1) / n) as u8,
        (box_sum(frame, 1, bx, bx1, by, by1) / n) as u8,
        (box_sum(frame, 2, bx, bx1, by, by1) / n) as u8,
    )
}

/// Window pixel (x, y) lies in the window image of block (j, i): the box
/// between the window points of the block's first and last frame pixels.
pub open spec fn block_covers(
    fs: (u32, u32),
    ws: (u32, u32),
    reg: (int, int, int, int),
    bs: int,
    j: int,
    i: int,
    x: int,
    y: int,
) -> bool {
    let (bx, by, bx1, by1) = block_box(reg, bs, j, i);
    let tl = spec_frame_to_window((bx as i32, by as i32), fs, ws);
    let br = spec_frame_to_window(((bx1 - 1) as i32, (by1 - 1) as i32), fs, ws);
    tl.0 <= x <= br.0 && tl.1 <= y <= br.1
}

/// Window pixel (x, y), first `base`, once the blocks before (j, i) in
/// row-major order have been painted: the color of the last of them that
/// covers it, or `base` when none does.
pub open spec fn mosaic_px_before(
    frame: RgbaFrame,
    ws: (u32, u32),
    reg: (int, int, int, int),
    bs: int,
    j: int,
    i: int,
    x: int,
    y: int,
    base: u32,
) -> u32
    decreases j, i,
{
    if i > 0 {
        if block_covers((frame.width, frame.height), ws, reg, bs, j, i - 1, x, y) {
            block_color(frame, reg, bs, j, i - 1)
        } else {
            mosaic_px_before(frame, ws, reg, bs, j, i - 1, x, y, base)
        }
    } else if j > 0 {
        mosaic_px_before(frame, ws, reg, bs, j - 1, block_count(reg.0, reg.2, bs), x, y, base)
    } else {
        base
    }
}

/// Window pixel (x, y), first `base`, after the mosaic of `rect` (in frame
/// pixels) was painted over it.
pub open spec fn mosaic_buf_px(frame: RgbaFrame, ws: (u32, u32), rect: Rect, bs: int, x: int, y: int, base: u32) -> u32 {
    let reg = mosaic_region(rect, frame.width as int, frame.height as int);
    if rect.w > 0 && rect.h > 0 && bs > 0 {
        mosaic_px_before(frame, ws, reg, bs, block_count(reg.1, reg.3, bs), 0, x, y, base)
    } else {
        base
    }
}

proof fn lemma_block_count(v0: int, v1: int, bs: int, k: int)
    requires
        bs > 0,
        k >= 1,
        v0 + (k - 1) * bs < v1 <= v0 + k * bs,
    ensures
        block_count(v0, v1, bs) == k,
{
    assert((v1 - v0 + bs - 1) / bs == k) by (nonlinear_arith)
        requires
            bs > 0,
            k >= 1,
            (k - 1) * bs < v1 - v0 <= k * bs,
    ;
}

/// A frame coordinate inside a frame of `f` pixels lands inside a window
/// of `n` pixels.
proof fn lemma_scale_inside(p: int, n: int, f: int)
    requires
        0 <= p < f,
        1 <= n,
    ensures
        0 <= p * n / f < n,
{
    assert(0 <= p * n / f < n) by (nonlinear_arith)
        requires
            0 <= p < f,
            1 <= n,
    ;
}

/// Pixelate `rect_frame` (in frame pixels) of `frame` onto the window
/// buffer: each block's mean color fills the window box between the window
/// points of the block's first and last pixels, blocks painted row by row.
pub fn apply_mosaic_on_buf(
    buf: &mut [u32],
    win_w: u32,
    win_h: u32,
    frame: &RgbaFrame,
    rect_frame: Rect,
    block_size: u32,
)
    requires
        buf_ok(old(buf)@.len() as int, win_w, win_h),
        frame.wf(),
        area_fits(*frame),
        mosaic_fits(rect_frame, block_size),
        win_w <= 0x4000_0000 && win_h <= 0x4000_0000,
        frame.width <= 0x4000_0000 && frame.height <= 0x4000_0000,
    ensures
        final(buf)@.len() == old(buf)@.len(),
        forall|x: int, y: int|
            0 <= x < win_w && 0 <= y < win_h ==> #[trigger] final(buf)@[idx(x, y, win_w as int)]
                == mosaic_buf_px(
                *frame,
                (win_w, win_h),
                rect_frame,
                block_size as int,
                x,
                y,
                old(buf)@[idx(x, y, win_w as int)],
            ),
{
    if rect_frame.w <= 0 || rect_frame.h <= 0 || block_size == 0 {
        return;
    }
    let ghost orig = buf@;
    let fs = frame.dimensions();
    let ws = (win_w, win_h);
    let bs = block_size as i32;
    let iw = fs.0 as i32;
    let ih = fs.1 as i32;
    let x0 = max_i32(rect_frame.x, 0);
    let y0 = max_i32(rect_frame.y, 0);
    let x1 = min_i32(rect_frame.x + rect_frame.w, iw);
    let y1 = min_i32(rect_frame.y + rect_frame.h, ih);
    let ghost reg = (x0 as int, y0 as int, x1 as int, y1 as int);
    assert(reg == mosaic_region(rect_frame, frame.width as int, frame.height as int));
    let ghost ncols = block_count(reg.0, reg.2, bs as int);
    let mut by = y0;
    let ghost mut j: int = 0;
    while by < y1
        invariant
            frame.wf(),
            fs == (frame.width, frame.height),
            ws == (win_w, win_h),
            frame.width <= 0x4000_0000 && frame.height <= 0x4000_0000,
            win_w <= 0x4000_0000 && win_h <= 0x4000_0000,
            buf_ok(orig.len() as int, win_w, win_h),
            buf@.len() == orig.len(),
            0 < bs,
            bs == block_size,
            area_fits(*frame),
            mosaic_fits(rect_frame, block_size),
            x1 <= rect_frame.x + rect_frame.w && y1 <= rect_frame.y + rect_frame.h,
            reg == (x0 as int, y0 as int, x1 as int, y1 as int),
            ncols == block_count(reg.0, reg.2, bs as int),
            0 <= x0 && 0 <= y0,
            x1 <= frame.width && y1 <= frame.height,
            j >= 0,
            by == y0 + j * bs,
            j == 0 || y0 + (j - 1) * bs < y1,
            forall|x: int, y: int|
                0 <= x < win_w && 0 <= y < win_h ==> #[trigger] buf@[idx(x, y, win_w as int)]
                    == mosaic_px_before(*frame, ws, reg, bs as int, j, 0, x, y, orig[idx(x, y, win_w as int)]),
        decreases y1 + bs - by,
    {
        let by1 = min_i32(by + bs, y1);
        let mut bx = x0;
        let ghost mut i: int = 0;
        while bx < x1
            invariant
                frame.wf(),
                fs == (frame.width, frame.height),
                ws == (win_w, win_h),
                frame.width <= 0x4000_0000 && frame.height <= 0x4000_0000,
                win_w <= 0x4000_0000 && win_h <= 0x4000_0000,
                buf_ok(orig.len() as int, win_w, win_h),
                buf@.len() == orig.len(),
                0 < bs,
                bs == block_size,
                area_fits(*frame),
                mosaic_fits(rect_frame, block_size),
                x1 <= rect_frame.x + rect_frame.w && y1 <= rect_frame.y + rect_frame.h,
                reg == (x0 as int, y0 as int, x1 as int, y1 as int),
                ncols == block_count(reg.0, reg.2, bs as int),
                0 <= x0 && 0 <= y0,
                x1 <= frame.width && y1 <= frame.height,
                j >= 0,
                by == y0 + j * bs,
                y0 <= by < y1,
                by1 == min(by + bs, y1 as int),
                i >= 0,
                bx == x0 + i * bs,
                i == 0 || x0 + (i - 1) * bs < x1,
                forall|x: int, y: int|
                    0 <= x < win_w && 0 <= y < win_h ==> #[trigger] buf@[idx(x, y, win_w as int)]
                        == mosaic_px_before(*frame, ws, reg, bs as int, j, i, x, y, orig[idx(x, y, win_w as int)]),
            decreases x1 + bs - bx,
        {
            let bx1 = min_i32(bx + bs, x1);
            proof {
                lemma_block_area(bx1 - bx, by1 - by, frame.width as int, frame.height as int);
            }
            let (sums, count) = block_sums(frame, bx, bx1, by, by1);
            assert(count > 0) by (nonlinear_arith)
                requires
                    count == (bx1 - bx) * (by1 - by),
                    bx < bx1,
                    by < by1,
            ;
            proof {
                lemma_box_sum_bound(*frame, 0, bx as int, bx1 as int, by as int, by1 as int);
                lemma_box_sum_bound(*frame, 1, bx as int, bx1 as int, by as int, by1 as int);
                lemma_box_sum_bound(*frame, 2, bx as int, bx1 as int, by as int, by1 as int);
            }
            let m0 = mean_u8(sums[0], count);
            let m1 = mean_u8(sums[1], count);
            let m2 = mean_u8(sums[2], count);
            let color: u32 = ((m0 as u32) << 16) | ((m1 as u32) << 8) | (m2 as u32);
            assert(color == block_color(*frame, reg, bs as int, j, i));
            let tl = frame_to_window((bx, by), fs, ws);
            let br = frame_to_window((bx1 - 1, by1 - 1), fs, ws);
            proof {
                lemma_scale_inside(bx as int, at_least_one(win_w), at_least_one(fs.0));
                lemma_scale_inside(by as int, at_least_one(win_h), at_least_one(fs.1));
                lemma_scale_inside(bx1 - 1, at_least_one(win_w), at_least_one(fs.0));
                lemma_scale_inside(by1 - 1, at_least_one(win_h), at_least_one(fs.1));
            }
            let ghost before = buf@;
            fill_rect(buf, win_w, win_h, tl.0, tl.1, br.0 - tl.0 + 1, br.1 - tl.1 + 1, color);
            proof {
                assert forall|x: int, y: int|
                    0 <= x < win_w && 0 <= y < win_h implies #[trigger] buf@[idx(x, y, win_w as int)]
                    == mosaic_px_before(
                    *frame,
                    ws,
                    reg,
                    bs as int,
                    j,
                    i + 1,
                    x,
                    y,
                    orig[idx(x, y, win_w as int)],
                ) by {
                    assert(block_box(reg, bs as int, j, i) == (bx as int, by as int, bx1 as int, by1 as int));
                    assert(before[idx(x, y, win_w as int)] == mosaic_px_before(
                        *frame,
                        ws,
                        reg,
                        bs as int,
                        j,
                        i,
                        x,
                        y,
                        orig[idx(x, y, win_w as int)],
                    ));
                }
                assert(bx + bs == x0 + (i + 1) * bs) by (nonlinear_arith)
                    requires
                        bx == x0 + i * bs,
                ;
                i = i + 1;
            }
            bx = bx + bs;
        }
        proof {
            if i > 0 {
                lemma_block_count(reg.0, reg.2, bs as int, i);
            }
            assert(i == ncols);
            assert(by + bs == y0 + (j + 1) * bs) by (nonlinear_arith)
                requires
                    by == y0 + j * bs,
            ;
            j = j + 1;
        }
        by = by + bs;
    }
    proof {
        if j > 0 {
            lemma_block_count(reg.1, reg.3, bs as int, j);
        }
        assert(j == block_count(reg.1, reg.3, bs as int));
    }
}

} // verus!
