//! The tray menu's items: their ids, their texts, and the request each
//! click makes of the daemon.

use vstd::prelude::*;

use crate::app::UserEvent;
use crate::strings::spelled;

verus! {

pub const ID_REGION: &'static str = "capture-region";

pub const ID_SCREEN: &'static str = "capture-screen";

pub const ID_EDIT_CONFIG: &'static str = "edit-config";

pub const ID_TOGGLE_AUTOSTART: &'static str = "toggle-autostart";

pub const ID_QUIT: &'static str = "quit";

/// A capture starts this long after its menu item is clicked, so that the
/// menu has closed and is not in the screenshot.
pub const CAPTURE_DELAY_MS: u64 = 150;

/// The request a click on the item with this id makes, and how long to
/// wait before making it.
pub open spec fn spec_menu_request(id: Seq<char>) -> Option<(UserEvent, u64)> {
    if id == ID_REGION@ {
        Some((UserEvent::CaptureRegion, CAPTURE_DELAY_MS))
    } else if id == ID_SCREEN@ {
        Some((UserEvent::CaptureScreen, CAPTURE_DELAY_MS))
    } else if id == ID_EDIT_CONFIG@ {
        Some((UserEvent::EditConfig, 0))
    } else if id == ID_TOGGLE_AUTOSTART@ {
        Some((UserEvent::ToggleAutostart, 0))
    } else if id == ID_QUIT@ {
        Some((UserEvent::Quit, 0))
    } else {
        None
    }
}

/// What a click on the menu item `id` asks of the daemon, and the delay in
/// milliseconds before asking; `None` for an id the menu does not have.
pub fn menu_request(id: &str) -> (r: Option<(UserEvent, u64)>)
    ensures
        r == spec_menu_request(id@),
{
    if spelled(id, ID_REGION) {
        Some((UserEvent::CaptureRegion, CAPTURE_DELAY_MS))
    } else if spelled(id, ID_SCREEN) {
        Some((UserEvent::CaptureScreen, CAPTURE_DELAY_MS))
    } else if spelled(id, ID_EDIT_CONFIG) {
        Some((UserEvent::EditConfig, 0))
    } else if spelled(id, ID_TOGGLE_AUTOSTART) {
        Some((UserEvent::ToggleAutostart, 0))
    } else if spelled(id, ID_QUIT) {
        Some((UserEvent::Quit, 0))
    } else {
        None
    }
}

/// "Capture Region", four spaces, then the hotkey that does the same.
pub fn region_item_text(hotkey: &str) -> (s: String)
    ensures
        s@ == "Capture Region    "@ + hotkey@,
{
    let mut s = String::from_str("Capture Region    ");
    s.append(hotkey);
    s
}

/// "Capture Screen", four spaces, then the hotkey that does the same.
pub fn screen_item_text(hotkey: &str) -> (s: String)
    ensures
        s@ == "Capture Screen    "@ + hotkey@,
{
    let mut s = String::from_str("Capture Screen    ");
    s.append(hotkey);
    s
}

} // verus!
