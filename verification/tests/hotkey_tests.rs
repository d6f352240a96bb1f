use global_hotkey::hotkey::{Code, HotKey, Modifiers};
use quickshot::config::{Config, HotkeyModifiers, KeyCode, ParsedHotkey, RawConfig, RawHotkey, RawSave};
use quickshot::hotkey::{
    code_name, config_after_reload, hotkey_id, start_reregister, reregister_step, RegAction, RegEvent, RegFailure, RegPhase, RegState,
};

fn start(s: RegState, r: u32, sc: u32) -> (RegState, Vec<RegAction>) {
    reregister_step(s, RegEvent::Start { new_region: r, new_screen: sc })
}

#[test]
fn same_hotkeys_swap_is_a_no_op() {
    let s = RegState::new(1, 2);
    let (s1, a) = start(s, 1, 2);
    assert_eq!(s1, s);
    assert_eq!(a, vec![RegAction::Finish(Ok(()))]);
}

#[test]
fn swap_registers_new_pair() {
    let (s1, a1) = start(RegState::new(1, 2), 3, 4);
    assert_eq!(a1, vec![RegAction::Unregister(1), RegAction::Unregister(2), RegAction::Register(3)]);
    assert_eq!(s1.phase, RegPhase::RegisteringRegion);
    assert_eq!((s1.region, s1.screen), (1, 2));
    let (s2, a2) = reregister_step(s1, RegEvent::Registered(true));
    assert_eq!(a2, vec![RegAction::Register(4)]);
    let (s3, a3) = reregister_step(s2, RegEvent::Registered(true));
    assert_eq!(a3, vec![RegAction::Finish(Ok(()))]);
    assert_eq!(s3, RegState::new(3, 4));
}

#[test]
fn refused_region_rolls_back() {
    let (s1, _) = start(RegState::new(1, 2), 3, 4);
    let (s2, a2) = reregister_step(s1, RegEvent::Registered(false));
    assert_eq!(
        a2,
        vec![RegAction::Register(1), RegAction::Register(2), RegAction::Finish(Err(RegFailure::Region))]
    );
    assert_eq!(s2, RegState::new(1, 2));
}

#[test]
fn refused_screen_rolls_back_and_drops_new_region() {
    let (s1, _) = start(RegState::new(1, 2), 3, 4);
    let (s2, _) = reregister_step(s1, RegEvent::Registered(true));
    let (s3, a3) = reregister_step(s2, RegEvent::Registered(false));
    assert_eq!(
        a3,
        vec![
            RegAction::Unregister(3),
            RegAction::Register(1),
            RegAction::Register(2),
            RegAction::Finish(Err(RegFailure::Screen)),
        ]
    );
    assert_eq!(s3, RegState::new(1, 2));
}

#[test]
fn stray_events_are_ignored() {
    let s = RegState::new(1, 2);
    let (s1, a) = reregister_step(s, RegEvent::Registered(true));
    assert_eq!(s1, s);
    assert!(a.is_empty());
    let (busy, _) = start(s, 3, 4);
    let (s2, a2) = start(busy, 5, 6);
    assert_eq!(s2, busy);
    assert!(a2.is_empty());
}

fn reloaded() -> Config {
    Config::from_raw(RawConfig {
        hotkey: Some(RawHotkey { region: Some("Ctrl+Shift+R".to_string()), fullscreen: None }),
        save: Some(RawSave { enabled: Some(true), directory: None, filename_template: None }),
        general: None,
    })
}

#[test]
fn reload_keeps_old_hotkeys_when_not_rebound() {
    let c = config_after_reload(Config::defaults(), reloaded(), false);
    assert_eq!(c.hotkey.region.raw, "Cmd+Shift+A");
    assert!(c.save.enabled);
    let c = config_after_reload(Config::defaults(), reloaded(), true);
    assert_eq!(c.hotkey.region.raw, "Ctrl+Shift+R");
    assert!(c.save.enabled);
}

fn mods(meta: bool, control: bool, alt: bool, shift: bool) -> HotkeyModifiers {
    HotkeyModifiers { meta, control, alt, shift }
}

fn parsed(m: HotkeyModifiers, code: KeyCode, raw: &str) -> ParsedHotkey {
    ParsedHotkey { modifiers: m, code, raw: raw.to_string() }
}

#[test]
fn code_names_follow_keyboard_codes() {
    assert_eq!(code_name(KeyCode::Letter('A')), "KeyA");
    assert_eq!(code_name(KeyCode::Digit('5')), "Digit5");
    assert_eq!(code_name(KeyCode::F(7)), "F7");
    assert_eq!(code_name(KeyCode::F(24)), "F24");
    assert_eq!(code_name(KeyCode::Space), "Space");
    assert_eq!(code_name(KeyCode::Enter), "Enter");
    assert_eq!(code_name(KeyCode::Tab), "Tab");
    assert_eq!(code_name(KeyCode::Backspace), "Backspace");
    assert_eq!(code_name(KeyCode::Escape), "Escape");
}

#[test]
fn hotkey_id_is_global_hotkeys_id() {
    let id = hotkey_id(mods(true, false, false, true), KeyCode::Letter('A'));
    let expected = HotKey::new(Some(Modifiers::META | Modifiers::SHIFT), Code::KeyA).id();
    assert_eq!(id, Some(expected));
    let id = hotkey_id(mods(false, true, true, false), KeyCode::F(12));
    let expected = HotKey::new(Some(Modifiers::CONTROL | Modifiers::ALT), Code::F12).id();
    assert_eq!(id, Some(expected));
    assert_ne!(
        hotkey_id(mods(false, true, false, false), KeyCode::Digit('1')),
        hotkey_id(mods(false, true, false, false), KeyCode::Digit('2'))
    );
}

#[test]
fn hotkey_id_of_unknown_key_is_none() {
    assert_eq!(hotkey_id(mods(false, false, false, false), KeyCode::F(99)), None);
    assert_eq!(hotkey_id(mods(false, false, false, false), KeyCode::Letter('a')), None);
}

#[test]
fn start_swap_uses_global_hotkey_ids() {
    let old_r = hotkey_id(mods(true, false, false, true), KeyCode::Letter('A')).unwrap();
    let old_s = hotkey_id(mods(true, false, false, true), KeyCode::Digit('3')).unwrap();
    let s = RegState::new(old_r, old_s);
    let same_r = parsed(mods(true, false, false, true), KeyCode::Letter('A'), "Cmd+Shift+A");
    let same_s = parsed(mods(true, false, false, true), KeyCode::Digit('3'), "Cmd+Shift+3");
    let (s1, a) = start_reregister(s, &same_r, &same_s).unwrap();
    assert_eq!(s1, s);
    assert_eq!(a, vec![RegAction::Finish(Ok(()))]);

    let new_r = parsed(mods(false, true, false, false), KeyCode::F(5), "Ctrl+F5");
    let (s2, a2) = start_reregister(s, &new_r, &same_s).unwrap();
    let new_id = HotKey::new(Some(Modifiers::CONTROL), Code::F5).id();
    assert_eq!(a2, vec![RegAction::Unregister(old_r), RegAction::Unregister(old_s), RegAction::Register(new_id)]);
    assert_eq!((s2.new_region, s2.new_screen), (new_id, old_s));

    let bad = parsed(mods(false, false, false, false), KeyCode::F(99), "F99");
    assert!(start_reregister(s, &bad, &same_s).is_none());
}
