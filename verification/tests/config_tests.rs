use quickshot::config::{
    home_expansion, parse_hotkey_string, Config, HomeExpansion, HotkeyError, KeyCode, Modifier, RawConfig, RawGeneral,
    RawHotkey, RawSave,
};

#[test]
fn parse_simple() {
    let p = parse_hotkey_string("Cmd+Shift+A").unwrap();
    assert!(p.modifiers.contains(Modifier::Meta));
    assert!(p.modifiers.contains(Modifier::Shift));
    assert_eq!(p.code, KeyCode::Letter('A'));
    assert_eq!(p.raw, "Cmd+Shift+A");
}

#[test]
fn parse_case_insensitive() {
    let p = parse_hotkey_string("cmd+SHIFT+a").unwrap();
    assert!(p.modifiers.contains(Modifier::Meta));
    assert!(p.modifiers.contains(Modifier::Shift));
    assert_eq!(p.code, KeyCode::Letter('A'));
}

#[test]
fn parse_opt_alias() {
    let p = parse_hotkey_string("Opt+Shift+B").unwrap();
    assert!(p.modifiers.contains(Modifier::Alt));
}

#[test]
fn parse_super_alias() {
    let p = parse_hotkey_string("Super+X").unwrap();
    assert!(p.modifiers.contains(Modifier::Meta));
}

#[test]
fn parse_digit() {
    let p = parse_hotkey_string("Ctrl+5").unwrap();
    assert_eq!(p.code, KeyCode::Digit('5'));
}

#[test]
fn parse_fn_key() {
    let p = parse_hotkey_string("Cmd+F7").unwrap();
    assert_eq!(p.code, KeyCode::F(7));
}

#[test]
fn parse_named_key() {
    let p = parse_hotkey_string("Ctrl+Space").unwrap();
    assert_eq!(p.code, KeyCode::Space);
}

#[test]
fn parse_empty_errors() {
    assert!(parse_hotkey_string("").is_err());
    assert!(parse_hotkey_string("   ").is_err());
}

#[test]
fn parse_missing_modifier_errors() {
    assert!(parse_hotkey_string("A").is_err());
}

#[test]
fn parse_unknown_modifier_errors() {
    assert!(parse_hotkey_string("Hyper+A").is_err());
}

#[test]
fn parse_duplicate_modifier_errors() {
    assert!(parse_hotkey_string("Cmd+Cmd+A").is_err());
}

#[test]
fn parse_unknown_key_errors() {
    assert!(parse_hotkey_string("Cmd+Banana").is_err());
}

#[test]
fn parse_errors_name_the_cause() {
    assert_eq!(parse_hotkey_string("  ").unwrap_err(), HotkeyError::Empty);
    assert_eq!(parse_hotkey_string("A").unwrap_err(), HotkeyError::MissingModifierOrKey);
    assert_eq!(
        parse_hotkey_string("Hyper+A").unwrap_err(),
        HotkeyError::UnknownModifier("Hyper".to_string())
    );
    assert_eq!(
        parse_hotkey_string("Cmd+Cmd+A").unwrap_err(),
        HotkeyError::DuplicateModifier("Cmd".to_string())
    );
    assert_eq!(
        parse_hotkey_string("Cmd+Banana").unwrap_err(),
        HotkeyError::UnknownKey("Banana".to_string())
    );
}

#[test]
fn parse_trims_parts_and_keeps_trimmed_raw() {
    let p = parse_hotkey_string("  Ctrl + Alt + F12 ").unwrap();
    assert!(p.modifiers.contains(Modifier::Control));
    assert!(p.modifiers.contains(Modifier::Alt));
    assert!(!p.modifiers.contains(Modifier::Shift));
    assert_eq!(p.code, KeyCode::F(12));
    assert_eq!(p.raw, "Ctrl + Alt + F12");
}

#[test]
fn parse_named_keys_and_aliases() {
    assert_eq!(parse_hotkey_string("Ctrl+Return").unwrap().code, KeyCode::Enter);
    assert_eq!(parse_hotkey_string("Ctrl+Esc").unwrap().code, KeyCode::Escape);
    assert_eq!(parse_hotkey_string("Ctrl+Tab").unwrap().code, KeyCode::Tab);
    assert!(parse_hotkey_string("Ctrl+F25").is_err());
    assert!(parse_hotkey_string("Ctrl+F0").is_err());
}

#[test]
fn defaults_parse() {
    let c = Config::defaults();
    assert_eq!(c.hotkey.region.raw, "Cmd+Shift+A");
    assert_eq!(c.hotkey.fullscreen.raw, "Cmd+Shift+S");
    assert!(!c.save.enabled);
    assert_eq!(c.save.filename_template, "Screenshot_{datetime}.png");
    assert!(c.general.notification_on_fullscreen);
}

#[test]
fn default_hotkeys_match_their_parsed_text() {
    let c = Config::defaults();
    let region = parse_hotkey_string(&c.hotkey.region.raw).unwrap();
    assert_eq!(region.modifiers, c.hotkey.region.modifiers);
    assert_eq!(region.code, c.hotkey.region.code);
    let full = parse_hotkey_string(&c.hotkey.fullscreen.raw).unwrap();
    assert_eq!(full.modifiers, c.hotkey.fullscreen.modifiers);
    assert_eq!(full.code, c.hotkey.fullscreen.code);
}

fn raw_empty() -> RawConfig {
    RawConfig { hotkey: None, save: None, general: None }
}

#[test]
fn from_raw_full_file_overrides_everything() {
    let raw = RawConfig {
        hotkey: Some(RawHotkey {
            region: Some("Ctrl+Shift+R".to_string()),
            fullscreen: Some("Ctrl+Shift+F".to_string()),
        }),
        save: Some(RawSave {
            enabled: Some(true),
            directory: Some("/tmp/shots".to_string()),
            filename_template: Some("s_{datetime}.png".to_string()),
        }),
        general: Some(RawGeneral { notification_on_fullscreen: Some(false) }),
    };
    let c = Config::from_raw(raw);
    assert_eq!(c.hotkey.region.raw, "Ctrl+Shift+R");
    assert_eq!(c.hotkey.region.code, KeyCode::Letter('R'));
    assert_eq!(c.hotkey.fullscreen.code, KeyCode::Letter('F'));
    assert!(c.save.enabled);
    assert_eq!(c.save.directory, "/tmp/shots");
    assert_eq!(c.save.filename_template, "s_{datetime}.png");
    assert!(!c.general.notification_on_fullscreen);
}

#[test]
fn from_raw_partial_file_uses_defaults() {
    let raw = RawConfig {
        save: Some(RawSave { enabled: Some(true), directory: None, filename_template: None }),
        ..raw_empty()
    };
    let c = Config::from_raw(raw);
    assert!(c.save.enabled);
    assert_eq!(c.hotkey.region.raw, "Cmd+Shift+A");
    assert_eq!(c.save.directory, "~/Desktop");
    assert_eq!(c.save.filename_template, "Screenshot_{datetime}.png");
}

#[test]
fn from_raw_invalid_hotkey_falls_back_to_default() {
    let raw = RawConfig {
        hotkey: Some(RawHotkey { region: Some("Hyper+Z".to_string()), fullscreen: None }),
        ..raw_empty()
    };
    let c = Config::from_raw(raw);
    assert_eq!(c.hotkey.region.raw, "Cmd+Shift+A");
    assert_eq!(c.hotkey.fullscreen.raw, "Cmd+Shift+S");
}

#[test]
fn from_raw_empty_file_is_the_defaults() {
    let c = Config::from_raw(raw_empty());
    let d = Config::defaults();
    assert_eq!(c.hotkey.region.raw, d.hotkey.region.raw);
    assert_eq!(c.hotkey.fullscreen.raw, d.hotkey.fullscreen.raw);
    assert_eq!(c.save.enabled, d.save.enabled);
    assert_eq!(c.save.directory, d.save.directory);
    assert_eq!(c.general.notification_on_fullscreen, d.general.notification_on_fullscreen);
}

#[test]
fn hotkey_errors_read_as_messages() {
    assert_eq!(parse_hotkey_string("  ").unwrap_err().message(), "empty hotkey string");
    assert_eq!(
        parse_hotkey_string("A").unwrap_err().message(),
        "hotkey must have at least one modifier and a key"
    );
    assert_eq!(parse_hotkey_string("Hyper+A").unwrap_err().message(), "unknown modifier: Hyper");
    assert_eq!(parse_hotkey_string("Cmd+cmd+A").unwrap_err().message(), "duplicate modifier: cmd");
    assert_eq!(parse_hotkey_string("Cmd+Banana").unwrap_err().message(), "unknown key: Banana");
    assert_eq!(HotkeyError::NoModifier.message(), "at least one modifier required");
}

#[test]
fn home_expansion_cases() {
    assert_eq!(home_expansion("~/Desktop", true), HomeExpansion::UnderHome("Desktop".to_string()));
    assert_eq!(home_expansion("~/", true), HomeExpansion::UnderHome(String::new()));
    assert_eq!(home_expansion("~", true), HomeExpansion::Home);
    assert_eq!(home_expansion("~/Desktop", false), HomeExpansion::AsWritten);
    assert_eq!(home_expansion("~", false), HomeExpansion::AsWritten);
    assert_eq!(home_expansion("~user/x", true), HomeExpansion::AsWritten);
    assert_eq!(home_expansion("/tmp/shots", true), HomeExpansion::AsWritten);
    assert_eq!(home_expansion("", true), HomeExpansion::AsWritten);
}

#[test]
fn every_key_is_read_in_any_case() {
    let cases = [
        ("Ctrl+f7", KeyCode::F(7)),
        ("Ctrl+F24", KeyCode::F(24)),
        ("Ctrl+f12", KeyCode::F(12)),
        ("Ctrl+z", KeyCode::Letter('Z')),
        ("Ctrl+0", KeyCode::Digit('0')),
        ("Ctrl+space", KeyCode::Space),
        ("Ctrl+Return", KeyCode::Enter),
        ("Ctrl+tab", KeyCode::Tab),
        ("Ctrl+BackSpace", KeyCode::Backspace),
        ("Ctrl+esc", KeyCode::Escape),
    ];
    for (text, code) in cases {
        assert_eq!(parse_hotkey_string(text).unwrap().code, code, "{}", text);
    }
    assert!(parse_hotkey_string("Ctrl+F0").is_err());
    assert!(parse_hotkey_string("Ctrl+F25").is_err());
}
