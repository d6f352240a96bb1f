use quickshot::frame::RgbaFrame;
use quickshot::overlay::render::{
    apply_dim, blit_background_dimmed, draw_background, draw_magnifier_zoom, magnifier_position, magnifier_readout,
    precompute_dimmed, size_label_position, size_label_text, dimensions_text, LabelPlacement,
};
use quickshot::overlay::state::Rect;

#[test]
fn magnifier_default_goes_bottom_right() {
    let (x, y) = magnifier_position((100, 100), (800, 600), 120, 20);
    assert_eq!((x, y), (120, 120));
}

#[test]
fn magnifier_flips_when_near_right_edge() {
    let (x, _y) = magnifier_position((750, 100), (800, 600), 120, 20);
    // x would be 770, the magnifier would end at 890 > 800: flip to the left.
    assert_eq!(x, 750 - 20 - 120);
}

#[test]
fn magnifier_flips_when_near_bottom() {
    let (_x, y) = magnifier_position((100, 550), (800, 600), 120, 20);
    assert_eq!(y, 550 - 20 - 120);
}

#[test]
fn magnifier_clamps_to_zero_in_extreme_corner() {
    let (x, y) = magnifier_position((5, 5), (800, 600), 120, 20);
    // Default would be (25, 25), which fits: no flip.
    assert_eq!((x, y), (25, 25));
}

#[test]
fn magnifier_flipped_past_left_edge_is_clamped_to_zero() {
    // Tiny window: both the default and the flipped position fall outside,
    // the flipped one is clamped to 0.
    let (x, y) = magnifier_position((50, 50), (100, 100), 120, 20);
    assert_eq!((x, y), (0, 0));
}

fn gradient_frame(w: u32, h: u32) -> RgbaFrame {
    let mut data = Vec::with_capacity((w * h * 4) as usize);
    for y in 0..h {
        for x in 0..w {
            data.push((x * 7 + 3) as u8);
            data.push((y * 5 + 11) as u8);
            data.push((x + y) as u8);
            data.push(255);
        }
    }
    RgbaFrame::from_raw(w, h, data).unwrap()
}

/// The precompute + blit fast path must be bit-for-bit identical to the
/// `draw_background` + `apply_dim` two-pass path.
fn assert_equiv(frame: &RgbaFrame, inside: Option<(u32, u32, u32, u32)>) {
    let (w, h) = frame.dimensions();
    let n = (w * h) as usize;

    let mut old = vec![0u32; n];
    draw_background(&mut old, w, h, frame);
    apply_dim(&mut old, w, h, inside);

    let dimmed = precompute_dimmed(frame);
    let mut new = vec![0u32; n];
    blit_background_dimmed(&mut new, w, h, frame, &dimmed, inside);

    assert_eq!(old, new, "inside={inside:?}");
}

#[test]
fn blit_matches_two_pass_no_selection() {
    assert_equiv(&gradient_frame(37, 29), None);
}

#[test]
fn blit_matches_two_pass_with_selection() {
    let frame = gradient_frame(64, 48);
    assert_equiv(&frame, Some((10, 8, 20, 15)));
}

#[test]
fn blit_matches_two_pass_selection_clamped_past_edge() {
    // A selection running off the right/bottom edge exercises the clamps.
    let frame = gradient_frame(40, 40);
    assert_equiv(&frame, Some((30, 30, 50, 50)));
}

#[test]
fn blit_matches_two_pass_zero_size_selection() {
    assert_equiv(&gradient_frame(24, 24), Some((5, 5, 0, 0)));
}

#[test]
fn blit_falls_back_on_size_mismatch() {
    // The dimmed cache is built for the frame; a buffer of a different size
    // forces the scaling fallback, which must equal draw_background +
    // apply_dim at that target size.
    let frame = gradient_frame(32, 32);
    let dimmed = precompute_dimmed(&frame);
    let (w, h) = (20u32, 16u32);
    let inside = Some((2, 2, 6, 6));

    let mut expected = vec![0u32; (w * h) as usize];
    draw_background(&mut expected, w, h, &frame);
    apply_dim(&mut expected, w, h, inside);

    let mut got = vec![0u32; (w * h) as usize];
    blit_background_dimmed(&mut got, w, h, &frame, &dimmed, inside);

    assert_eq!(expected, got);
}

#[test]
fn precompute_dimmed_halves_each_channel() {
    let frame = RgbaFrame::from_raw(1, 1, vec![200, 101, 4, 255]).unwrap();
    assert_eq!(precompute_dimmed(&frame), vec![(100u32 << 16) | (50 << 8) | 2]);
}

#[test]
fn draw_background_swizzles_rgba_to_0rgb() {
    let frame = RgbaFrame::from_raw(2, 1, vec![1, 2, 3, 255, 10, 20, 30, 255]).unwrap();
    let mut buf = vec![0u32; 2];
    draw_background(&mut buf, 2, 1, &frame);
    assert_eq!(buf, vec![0x00010203, 0x000A141E]);
}

#[test]
fn apply_dim_leaves_selection_bright() {
    let mut buf = vec![0x00FF_FFFF_u32; 4];
    apply_dim(&mut buf, 2, 2, Some((0, 0, 1, 1)));
    assert_eq!(buf, vec![0x00FF_FFFF, 0x007F_7F7F, 0x007F_7F7F, 0x007F_7F7F]);
}

#[test]
fn label_positions_above_when_space_available() {
    let r = Rect { x: 100, y: 100, w: 50, h: 50 };
    let (lx, ly, placement) = size_label_position(r, (40, 16), 4);
    assert_eq!(placement, LabelPlacement::AboveOutside);
    assert_eq!(lx, 100);
    assert_eq!(ly, 100 - 4 - 16);
}

#[test]
fn label_flips_inside_when_no_room_above() {
    let r = Rect { x: 100, y: 5, w: 50, h: 50 };
    let (lx, ly, placement) = size_label_position(r, (40, 16), 4);
    assert_eq!(placement, LabelPlacement::InsideTopLeft);
    assert_eq!(lx, 100 + 4);
    assert_eq!(ly, 5 + 4);
}

#[test]
fn magnifier_zoom_enlarges_four_times_around_the_center() {
    // A 4x1 frame with distinct reds; zoom area 8 wide, 4 high at (1, 1).
    let frame = RgbaFrame::from_raw(4, 1, vec![10, 0, 0, 255, 20, 0, 0, 255, 30, 0, 0, 255, 40, 0, 0, 255]).unwrap();
    let (w, h) = (10u32, 6u32);
    let mut buf = vec![7u32; (w * h) as usize];
    draw_magnifier_zoom(&mut buf, w, h, &frame, (1, 1), 8, 4, (2, 0));
    // span = 2, so columns start at frame x = 2 - 1 = 1: four pixels of 20,
    // then four of 30; rows all read frame row 0.
    for y in 1..5usize {
        for x in 1..9usize {
            let expected = if x < 5 { 20u32 << 16 } else { 30u32 << 16 };
            assert_eq!(buf[y * 10 + x], expected, "({x}, {y})");
        }
    }
    assert_eq!(buf[0], 7);
    assert_eq!(buf[5 * 10 + 1], 7);
    assert_eq!(buf[1 * 10 + 9], 7);
}

#[test]
fn magnifier_readout_shows_clamped_pixel_in_hex() {
    let mut data = vec![0u8; 3 * 2 * 4];
    let i = (1 * 3 + 2) * 4;
    data[i..i + 4].copy_from_slice(&[0xAB, 0x0C, 0xFF, 0x80]);
    data[0..4].copy_from_slice(&[1, 2, 3, 4]);
    let frame = RgbaFrame::from_raw(3, 2, data).unwrap();
    assert_eq!(magnifier_readout(&frame, (2, 1)), "#AB0CFF 2px, 1px");
    assert_eq!(magnifier_readout(&frame, (5, 9)), "#AB0CFF 2px, 1px");
    assert_eq!(magnifier_readout(&frame, (-3, 0)), "#010203 0px, 0px");
}

#[test]
fn size_label_counts_frame_pixels() {
    let r = Rect { x: 10, y: 10, w: 100, h: 50 };
    assert_eq!(size_label_text(r, (2880, 1800), (1440, 900)), "200 \u{00D7} 100");
    assert_eq!(size_label_text(r, (1440, 900), (1440, 900)), "100 \u{00D7} 50");
}

#[test]
fn size_label_never_shows_zero() {
    let r = Rect { x: 0, y: 0, w: 1, h: 3 };
    assert_eq!(size_label_text(r, (1, 1), (10, 10)), "1 \u{00D7} 1");
    assert_eq!(size_label_text(r, (7, 7), (0, 0)), "7 \u{00D7} 21");
}

#[test]
fn dimensions_read_width_times_height() {
    assert_eq!(dimensions_text(1920, 1080), "1920 \u{00D7} 1080");
    assert_eq!(dimensions_text(0, 4294967295), "0 \u{00D7} 4294967295");
}
