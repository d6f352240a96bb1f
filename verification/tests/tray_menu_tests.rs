use quickshot::app::UserEvent;
use quickshot::tray_menu::{menu_request, region_item_text, screen_item_text, CAPTURE_DELAY_MS};

#[test]
fn menu_items_make_their_requests() {
    assert_eq!(menu_request("capture-region"), Some((UserEvent::CaptureRegion, CAPTURE_DELAY_MS)));
    assert_eq!(menu_request("capture-screen"), Some((UserEvent::CaptureScreen, 150)));
    assert_eq!(menu_request("edit-config"), Some((UserEvent::EditConfig, 0)));
    assert_eq!(menu_request("toggle-autostart"), Some((UserEvent::ToggleAutostart, 0)));
    assert_eq!(menu_request("quit"), Some((UserEvent::Quit, 0)));
    assert_eq!(menu_request("Quit"), None);
    assert_eq!(menu_request(""), None);
}

#[test]
fn capture_items_show_their_hotkeys() {
    assert_eq!(region_item_text("Cmd+Shift+A"), "Capture Region    Cmd+Shift+A");
    assert_eq!(screen_item_text("Ctrl+Alt+S"), "Capture Screen    Ctrl+Alt+S");
}
