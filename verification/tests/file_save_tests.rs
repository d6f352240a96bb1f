use quickshot::file_save::{
    interpolate, numbered_name, save_as_name, uniquify, CaptureMode, DateTimeParts, TemplateContext,
};
use std::cell::RefCell;

fn at(hour: u8, minute: u8, second: u8) -> DateTimeParts {
    DateTimeParts { year: 2026, month: 4, day: 19, hour, minute, second }
}

fn ctx(width: u32, height: u32, mode: CaptureMode, now: DateTimeParts) -> TemplateContext {
    TemplateContext { width, height, mode, now, warn_unknown: false }
}

#[test]
fn interpolate_date() {
    let mut c = ctx(1920, 1080, CaptureMode::Fullscreen, at(15, 4, 30));
    assert_eq!(interpolate("shot_{date}.png", &mut c), "shot_2026-04-19.png");
}

#[test]
fn interpolate_time() {
    let mut c = ctx(1, 1, CaptureMode::Region, at(15, 4, 30));
    assert_eq!(interpolate("{time}", &mut c), "15-04-30");
}

#[test]
fn interpolate_datetime() {
    let mut c = ctx(1, 1, CaptureMode::Region, at(15, 4, 30));
    assert_eq!(interpolate("{datetime}.png", &mut c), "2026-04-19_15-04-30.png");
}

#[test]
fn interpolate_wh_mode() {
    let mut c = ctx(2880, 1800, CaptureMode::Fullscreen, at(0, 0, 0));
    assert_eq!(interpolate("{mode}_{w}x{h}.png", &mut c), "fullscreen_2880x1800.png");
}

#[test]
fn interpolate_unknown_passthrough() {
    let mut c = ctx(1, 1, CaptureMode::Region, at(0, 0, 0));
    assert_eq!(interpolate("x_{bogus}_y", &mut c), "x_{bogus}_y");
    assert!(c.warn_unknown);
}

#[test]
fn interpolate_unmatched_brace() {
    let mut c = ctx(1, 1, CaptureMode::Region, at(0, 0, 0));
    assert_eq!(interpolate("a_{date_unfinished", &mut c), "a_{date_unfinished");
    assert!(!c.warn_unknown);
}

#[test]
fn interpolate_known_placeholders_leave_warning_unset() {
    let mut c = ctx(7, 9, CaptureMode::Region, at(1, 2, 3));
    assert_eq!(interpolate("{mode}-{w}-{h}-{time}", &mut c), "region-7-9-01-02-03");
    assert!(!c.warn_unknown);
}

#[test]
fn interpolate_pads_small_years_and_plain_text_is_unchanged() {
    let now = DateTimeParts { year: 33, month: 1, day: 2, hour: 0, minute: 0, second: 0 };
    let mut c = ctx(1, 1, CaptureMode::Region, now);
    assert_eq!(interpolate("{date}", &mut c), "0033-01-02");
    assert_eq!(interpolate("no placeholders.png", &mut c), "no placeholders.png");
    assert_eq!(interpolate("", &mut c), "");
}

#[test]
fn interpolate_empty_placeholder_is_unknown() {
    let mut c = ctx(1, 1, CaptureMode::Region, at(0, 0, 0));
    assert_eq!(interpolate("a{}b", &mut c), "a{}b");
    assert!(c.warn_unknown);
}

#[test]
fn capture_mode_names() {
    assert_eq!(CaptureMode::Region.as_str(), "region");
    assert_eq!(CaptureMode::Fullscreen.as_str(), "fullscreen");
}

#[test]
fn numbered_names_follow_stem_and_extension() {
    assert_eq!(numbered_name("shot", "png", 1), "shot_1.png");
    assert_eq!(numbered_name("shot", "png", 2), "shot_2.png");
    assert_eq!(numbered_name("notes", "", 99), "notes_99");
}

#[test]
fn uniquify_keeps_a_free_name() {
    let asked = RefCell::new(Vec::new());
    let r = uniquify("fresh.png", "fresh", "png", |s: String| {
        asked.borrow_mut().push(s);
        false
    });
    assert_eq!(r, "fresh.png");
    assert_eq!(*asked.borrow(), vec!["fresh.png".to_string()]);
}

#[test]
fn uniquify_adds_the_first_free_suffix() {
    let existing = ["shot.png".to_string(), "shot_1.png".to_string()];
    let r = uniquify("shot.png", "shot", "png", |s: String| existing.contains(&s));
    assert_eq!(r, "shot_2.png");
    let r = uniquify("shot.png", "shot", "png", |s: String| s == "shot.png");
    assert_eq!(r, "shot_1.png");
}

#[test]
fn uniquify_gives_up_after_ninety_nine_tries() {
    let count = RefCell::new(0u32);
    let r = uniquify("x", "x", "", |_s: String| {
        *count.borrow_mut() += 1;
        true
    });
    assert_eq!(r, "x");
    assert_eq!(*count.borrow(), 100);
}

#[test]
fn save_as_name_stamps_local_time() {
    let now = DateTimeParts { year: 2026, month: 4, day: 15, hour: 9, minute: 5, second: 7 };
    assert_eq!(save_as_name(now), "quickshot-2026-04-15-09-05-07.png");
}

#[test]
fn save_as_name_pads_small_years() {
    let now = DateTimeParts { year: 33, month: 12, day: 31, hour: 23, minute: 59, second: 59 };
    assert_eq!(save_as_name(now), "quickshot-0033-12-31-23-59-59.png");
}
