use quickshot::autostart::{escape_xml, install, is_installed, render_plist, uninstall, AutostartError};
use quickshot::crop::{crop_rgba, normalize_rect};
use quickshot::frame::RgbaFrame;

#[test]
fn normalize_handles_reversed_drag() {
    // Dragging right-to-left / bottom-to-top still yields a positive size.
    let r = normalize_rect((80, 60), (20, 10), (100, 100)).unwrap();
    assert_eq!(r, (20, 10, 60, 50));
}

#[test]
fn normalize_clamps_to_bounds() {
    // An end point past the right/bottom edges is clipped.
    let r = normalize_rect((10, 10), (1000, 1000), (100, 100)).unwrap();
    assert_eq!(r, (10, 10, 90, 90));
}

#[test]
fn normalize_clamps_negative_start() {
    // A negative start (the mouse went above the window top) clips to 0.
    let r = normalize_rect((-50, -50), (40, 40), (100, 100)).unwrap();
    assert_eq!(r, (0, 0, 40, 40));
}

#[test]
fn normalize_rejects_degenerate() {
    // A zero-area selection gives None.
    assert!(normalize_rect((50, 50), (50, 50), (100, 100)).is_none());
}

#[test]
fn normalize_is_symmetric_in_its_corners() {
    assert_eq!(
        normalize_rect((3, 90), (70, 4), (100, 100)),
        normalize_rect((70, 4), (3, 90), (100, 100))
    );
    assert!(normalize_rect((120, 10), (150, 50), (100, 100)).is_none());
}

fn filled(w: u32, h: u32, px: [u8; 4]) -> Vec<u8> {
    let mut v = Vec::new();
    for _ in 0..(w * h) {
        v.extend_from_slice(&px);
    }
    v
}

#[test]
fn crop_extracts_exact_region() {
    // A 4x4 image; the top-left 2x2 is red, the rest blue.
    let mut data = filled(4, 4, [0, 0, 255, 255]);
    for y in 0..2usize {
        for x in 0..2usize {
            let i = (y * 4 + x) * 4;
            data[i..i + 4].copy_from_slice(&[255, 0, 0, 255]);
        }
    }
    let img = RgbaFrame::from_raw(4, 4, data).unwrap();
    let cropped = crop_rgba(&img, (0, 0, 2, 2));
    assert_eq!(cropped.dimensions(), (2, 2));
    for p in cropped.as_raw().chunks(4) {
        assert_eq!(p, &[255, 0, 0, 255]);
    }
}

#[test]
fn crop_is_clamped_to_the_image() {
    let mut data = Vec::new();
    for i in 0..16u8 {
        data.extend_from_slice(&[i, 0, 0, 255]);
    }
    let img = RgbaFrame::from_raw(4, 4, data).unwrap();
    let cropped = crop_rgba(&img, (3, 2, 5, 5));
    assert_eq!(cropped.dimensions(), (1, 2));
    assert_eq!(cropped.as_raw(), &[11, 0, 0, 255, 15, 0, 0, 255]);
}

#[test]
fn plist_contains_bin_path() {
    let out = render_plist("/Users/test/quickshot");
    assert!(out.contains("<string>/Users/test/quickshot</string>"));
    assert!(out.contains("<key>Label</key>"));
    assert!(out.contains("com.quickshot.daemon"));
    assert!(out.contains("<key>RunAtLoad</key>"));
    assert!(out.contains("<true/>"));
    assert!(out.contains("<key>KeepAlive</key>"));
    // <true/> above is RunAtLoad's; KeepAlive is <false/>.
    assert!(out.contains("<false/>"));
}

#[test]
fn plist_escapes_xml_chars() {
    let out = render_plist("/home/user/dir with <brackets>&ampersands/bin");
    assert!(out.contains("&lt;brackets&gt;"));
    assert!(out.contains("&amp;ampersands"));
    assert!(!out.contains("<brackets>"));
}

#[test]
fn escape_xml_cases() {
    assert_eq!(escape_xml("a&b"), "a&amp;b");
    assert_eq!(escape_xml("a<b>c"), "a&lt;b&gt;c");
    assert_eq!(escape_xml("plain/path"), "plain/path");
}

#[test]
fn escape_xml_escapes_ampersands_once() {
    assert_eq!(escape_xml("&lt;"), "&amp;lt;");
    assert_eq!(escape_xml(""), "");
}

#[test]
fn autostart_is_unsupported_here() {
    assert!(!is_installed());
    assert_eq!(install(), Err(AutostartError::Unsupported));
    assert_eq!(uninstall(), Err(AutostartError::Unsupported));
    assert_eq!(
        AutostartError::Unsupported.message(),
        "autostart is not supported on this platform"
    );
}
