use quickshot::frame::RgbaFrame;
use quickshot::glyph::{blit_glyph, blit_glyph_rgba};

#[test]
fn glyph_coverage_blends_over_buffer() {
    let (w, h) = (4u32, 3u32);
    let mut buf = vec![0x0010_2030u32; 12];
    let bitmap = [255u8, 0, 128, 64];
    blit_glyph(&mut buf, w, h, 1, 1, 2, 2, &bitmap, (200, 100, 50));
    assert_eq!(buf[1 * 4 + 1], 0x00C8_6432);
    assert_eq!(buf[1 * 4 + 2], 0x0010_2030);
    assert_eq!(buf[2 * 4 + 1], 0x006C_4231);
    assert_eq!(buf[2 * 4 + 2], 0x003E_3130);
    for i in [0usize, 1, 2, 3, 4, 7, 8, 11] {
        assert_eq!(buf[i], 0x0010_2030, "pixel {i} outside the glyph changed");
    }
}

#[test]
fn glyph_is_clipped_at_buffer_edges() {
    let mut buf = vec![0u32; 4];
    let bitmap = [255u8, 255, 255, 255];
    blit_glyph(&mut buf, 2, 2, -1, -1, 2, 2, &bitmap, (255, 255, 255));
    assert_eq!(buf, vec![0x00FF_FFFF, 0, 0, 0]);
    let mut buf = vec![0u32; 4];
    blit_glyph(&mut buf, 2, 2, 1, 1, 2, 2, &bitmap, (1, 2, 3));
    assert_eq!(buf, vec![0, 0, 0, 0x0001_0203]);
}

#[test]
fn glyph_blends_into_rgba_image_keeping_alpha() {
    let mut img = RgbaFrame::from_raw(2, 1, vec![10, 20, 30, 40, 50, 60, 70, 80]).unwrap();
    blit_glyph_rgba(&mut img, 1, 0, 1, 1, &[200], (1, 2, 3));
    assert_eq!(img.into_raw(), vec![10, 20, 30, 40, 11, 14, 17, 80]);
}

#[test]
fn transparent_glyph_leaves_image_alone() {
    let mut img = RgbaFrame::from_raw(2, 2, vec![7; 16]).unwrap();
    blit_glyph_rgba(&mut img, 0, 0, 2, 2, &[0, 0, 0, 0], (255, 0, 0));
    assert_eq!(img.into_raw(), vec![7; 16]);
}
