use quickshot::frame::RgbaFrame;
use quickshot::overlay::annotate_render::{
    apply_mosaic_on_buf, apply_mosaic_on_image, draw_rect_outline_buf, draw_rect_outline_on_image, frame_to_window, text_lines,
};
use quickshot::overlay::help_panel::{layout, rows, PANEL_HEIGHT, PANEL_WIDTH};
use quickshot::overlay::state::Rect;

fn red() -> [u8; 4] {
    [255, 59, 48, 255]
}

fn solid(w: u32, h: u32, px: [u8; 4]) -> RgbaFrame {
    let mut data = Vec::new();
    for _ in 0..(w * h) {
        data.extend_from_slice(&px);
    }
    RgbaFrame::from_raw(w, h, data).unwrap()
}

fn pixel(img: &RgbaFrame, x: u32, y: u32) -> [u8; 4] {
    let i = ((y * img.width + x) * 4) as usize;
    let d = img.as_raw();
    [d[i], d[i + 1], d[i + 2], d[i + 3]]
}

fn put(img: &mut RgbaFrame, x: u32, y: u32, px: [u8; 4]) {
    let i = ((y * img.width + x) * 4) as usize;
    img.data[i..i + 4].copy_from_slice(&px);
}

#[test]
fn draw_rect_outline_basic() {
    let mut img = solid(20, 20, [0, 0, 0, 255]);
    let rect = Rect { x: 5, y: 5, w: 10, h: 10 };
    draw_rect_outline_on_image(&mut img, rect, red(), 1);
    assert_eq!(pixel(&img, 5, 5), [255, 59, 48, 255]);
    assert_eq!(pixel(&img, 10, 10), [0, 0, 0, 255]);
}

#[test]
fn draw_rect_outline_zero_dims_noop() {
    let mut img = solid(10, 10, [0, 0, 0, 255]);
    let rect = Rect { x: 5, y: 5, w: 0, h: 0 };
    draw_rect_outline_on_image(&mut img, rect, red(), 1);
    for px in img.as_raw().chunks(4) {
        assert_eq!(px, &[0, 0, 0, 255]);
    }
}

#[test]
fn draw_rect_outline_clips_at_the_image_edge() {
    let mut img = solid(6, 6, [0, 0, 0, 255]);
    draw_rect_outline_on_image(&mut img, Rect { x: 3, y: 3, w: 10, h: 10 }, red(), 1);
    assert_eq!(pixel(&img, 3, 3), red());
    assert_eq!(pixel(&img, 5, 3), red());
    assert_eq!(pixel(&img, 3, 5), red());
    assert_eq!(pixel(&img, 5, 5), [0, 0, 0, 255]);
}

#[test]
fn mosaic_averages_block() {
    let mut img = RgbaFrame::new(8, 8);
    for y in 0..8 {
        for x in 0..8 {
            let c = if x < 4 { [255u8, 0, 0, 255] } else { [0u8, 0, 255, 255] };
            put(&mut img, x, y, c);
        }
    }
    apply_mosaic_on_image(&mut img, Rect { x: 0, y: 0, w: 8, h: 8 }, 8);
    let expected = [127u8, 0, 127, 255];
    for y in 0..8 {
        for x in 0..8 {
            assert_eq!(pixel(&img, x, y), expected, "pixel {x},{y}");
        }
    }
}

#[test]
fn mosaic_blocks_are_independent() {
    let mut img = RgbaFrame::new(16, 8);
    for y in 0..8 {
        for x in 0..16 {
            let c = if x < 8 { [255u8, 0, 0, 255] } else { [0u8, 0, 255, 255] };
            put(&mut img, x, y, c);
        }
    }
    apply_mosaic_on_image(&mut img, Rect { x: 0, y: 0, w: 16, h: 8 }, 8);
    assert_eq!(pixel(&img, 0, 0), [255, 0, 0, 255]);
    assert_eq!(pixel(&img, 7, 7), [255, 0, 0, 255]);
    assert_eq!(pixel(&img, 8, 0), [0, 0, 255, 255]);
    assert_eq!(pixel(&img, 15, 7), [0, 0, 255, 255]);
}

#[test]
fn mosaic_leaves_pixels_outside_the_rect() {
    let mut img = RgbaFrame::new(4, 1);
    put(&mut img, 0, 0, [10, 10, 10, 255]);
    put(&mut img, 1, 0, [20, 20, 20, 255]);
    put(&mut img, 2, 0, [30, 30, 30, 255]);
    apply_mosaic_on_image(&mut img, Rect { x: 0, y: 0, w: 2, h: 1 }, 8);
    assert_eq!(pixel(&img, 0, 0), [15, 15, 15, 255]);
    assert_eq!(pixel(&img, 1, 0), [15, 15, 15, 255]);
    assert_eq!(pixel(&img, 2, 0), [30, 30, 30, 255]);
}

#[test]
fn outline_buf_paints_the_corner_box_border() {
    let mut buf = vec![0u32; 25];
    draw_rect_outline_buf(&mut buf, 5, 5, (1, 1), (3, 3), 7, 1);
    let painted: Vec<usize> = (0..25).filter(|&i| buf[i] == 7).collect();
    assert_eq!(painted, vec![6, 7, 8, 11, 13, 16, 17, 18]);
}

#[test]
fn frame_points_scale_to_window_points() {
    assert_eq!(frame_to_window((200, 100), (2000, 1000), (1000, 500)), (100, 50));
    assert_eq!(frame_to_window((7, 7), (0, 0), (1000, 500)), (7000, 3500));
}

#[test]
fn layout_with_selection_anchors_below_right() {
    let sel = Rect { x: 100, y: 100, w: 400, h: 300 };
    let l = layout(Some(sel), (1440, 900));
    // The panel is a sane on-screen rectangle.
    assert!(l.origin.0 >= 8);
    assert!(l.origin.1 >= 8);
    assert!(l.origin.0 + l.size.0 <= 1440 - 8);
    assert!(l.origin.1 + l.size.1 <= 900 - 8);
}

#[test]
fn layout_no_selection_uses_window_corner() {
    let l = layout(None, (1440, 900));
    // Bottom-right corner area.
    assert!(l.origin.0 + l.size.0 <= 1440 - 8);
    assert!(l.origin.1 + l.size.1 <= 900 - 8);
    assert!(l.origin.0 > 1440 / 2);
}

#[test]
fn layout_clamps_when_selection_at_edge() {
    let sel = Rect { x: 1300, y: 800, w: 100, h: 50 };
    let l = layout(Some(sel), (1440, 900));
    // Still on screen.
    assert!(l.origin.0 + l.size.0 <= 1440 - 8);
    assert!(l.origin.1 + l.size.1 <= 900 - 8);
}

#[test]
fn panel_size_and_rows() {
    let l = layout(None, (1440, 900));
    assert_eq!(l.size, (PANEL_WIDTH, PANEL_HEIGHT));
    assert_eq!(l.origin, (1440 - 360 - 16, 900 - 416 - 16));
    let r = rows();
    assert_eq!(r.len(), 19);
    assert!(r[0].is_title);
    assert_eq!(r[2].text, "Tools");
    assert!(!r[18].is_title);
}

#[test]
fn mosaic_on_buf_paints_block_means_at_window_scale() {
    // 4x2 frame: left half red, right half blue; window at half size.
    let mut frame = RgbaFrame::new(4, 2);
    for y in 0..2 {
        for x in 0..4 {
            let c = if x < 2 { [200u8, 0, 0, 255] } else { [0u8, 0, 100, 255] };
            put(&mut frame, x, y, c);
        }
    }
    let mut buf = vec![1u32; 2];
    apply_mosaic_on_buf(&mut buf, 2, 1, &frame, Rect { x: 0, y: 0, w: 4, h: 2 }, 2);
    assert_eq!(buf, vec![0x00C8_0000, 0x0000_0064]);
}

#[test]
fn mosaic_on_buf_averages_across_a_block_and_skips_empty_rects() {
    let mut frame = RgbaFrame::new(2, 1);
    put(&mut frame, 0, 0, [10, 20, 30, 255]);
    put(&mut frame, 1, 0, [20, 40, 61, 255]);
    let mut buf = vec![0u32; 2];
    apply_mosaic_on_buf(&mut buf, 2, 1, &frame, Rect { x: 0, y: 0, w: 2, h: 1 }, 8);
    assert_eq!(buf, vec![0x000F_1E2D, 0x000F_1E2D]);
    let mut untouched = vec![5u32; 2];
    apply_mosaic_on_buf(&mut untouched, 2, 1, &frame, Rect { x: 0, y: 0, w: 0, h: 1 }, 8);
    assert_eq!(untouched, vec![5, 5]);
}

#[test]
fn text_lines_split_on_every_line_ending() {
    assert_eq!(text_lines("a\nb\r\nc\rd"), vec!["a", "b", "c", "d"]);
}

#[test]
fn text_lines_keep_empty_lines() {
    assert_eq!(text_lines(""), vec![""]);
    assert_eq!(text_lines("x\n"), vec!["x", ""]);
    assert_eq!(text_lines("\r\r\n\n"), vec!["", "", "", ""]);
    assert_eq!(text_lines("你好\r\nworld"), vec!["你好", "world"]);
}

#[test]
fn mosaic_block_larger_than_the_image_is_one_block() {
    let mut img = RgbaFrame::new(4, 1);
    put(&mut img, 0, 0, [10, 10, 10, 255]);
    put(&mut img, 1, 0, [20, 20, 20, 255]);
    put(&mut img, 2, 0, [30, 30, 30, 255]);
    put(&mut img, 3, 0, [40, 40, 40, 255]);
    apply_mosaic_on_image(&mut img, Rect { x: 0, y: 0, w: 4, h: 1 }, 1 << 30);
    for x in 0..4 {
        assert_eq!(pixel(&img, x, 0), [25, 25, 25, 255]);
    }
}
