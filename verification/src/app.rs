//! Requests that reach the daemon's event loop from the hotkeys, the tray
//! menu and the config watcher, and what the command line asks for.

use vstd::prelude::*;

use crate::strings::spelled;

verus! {

#[derive(Debug, Clone, Copy, PartialEq, Eq, Structural)]
pub enum UserEvent {
    /// The region hotkey, or "Capture Region" in the tray menu.
    CaptureRegion,
    /// The full-screen hotkey, or "Capture Screen" in the tray menu.
    CaptureScreen,
    /// "Edit Config…": open the config file in the default editor.
    EditConfig,
    /// "Start at Login": toggle autostart.
    ToggleAutostart,
    /// The config file changed on disk: reload it and rebind the hotkeys.
    ReloadConfig,
    Quit,
}

/// The request a global hotkey press stands for, given the ids of the
/// registered region and full-screen hotkeys.
pub open spec fn spec_hotkey_request(pressed_id: u32, region_id: u32, screen_id: u32) -> Option<UserEvent> {
    if pressed_id == region_id {
        Some(UserEvent::CaptureRegion)
    } else if pressed_id == screen_id {
        Some(UserEvent::CaptureScreen)
    } else {
        None
    }
}

/// What a pressed global hotkey asks of the daemon: a region capture for
/// the region hotkey, a full-screen capture for the other, nothing for an
/// id of neither.
pub fn hotkey_request(pressed_id: u32, region_id: u32, screen_id: u32) -> (r: Option<UserEvent>)
    ensures
        r == spec_hotkey_request(pressed_id, region_id, screen_id),
{
    if pressed_id == region_id {
        Some(UserEvent::CaptureRegion)
    } else if pressed_id == screen_id {
        Some(UserEvent::CaptureScreen)
    } else {
        None
    }
}

/// What the command line asks the program to do.
#[derive(Debug, Clone, PartialEq, Eq)]
pub enum CliCommand {
    /// No argument: run the daemon.
    Run,
    /// `--install-autostart`.
    InstallAutostart,
    /// `--uninstall-autostart`.
    UninstallAutostart,
    /// `--help` or `-h`.
    Help,
    /// Any other first argument, which is refused.
    Unknown(String),
}

pub open spec fn spec_cli_command(arg: Option<Seq<char>>) -> CliCommandView {
    match arg {
        None => CliCommandView::Run,
        Some(a) => if a == "--install-autostart"@ {
            CliCommandView::InstallAutostart
        } else if a == "--uninstall-autostart"@ {
            CliCommandView::UninstallAutostart
        } else if a == "--help"@ || a == "-h"@ {
            CliCommandView::Help
        } else {
            CliCommandView::Unknown(a)
        },
    }
}

pub enum CliCommandView {
    Run,
    InstallAutostart,
    UninstallAutostart,
    Help,
    Unknown(Seq<char>),
}

impl View for CliCommand {
    type V = CliCommandView;

    open spec fn view(&self) -> CliCommandView {
        match self {
            CliCommand::Run => CliCommandView::Run,
            CliCommand::InstallAutostart => CliCommandView::InstallAutostart,
            CliCommand::UninstallAutostart => CliCommandView::UninstallAutostart,
            CliCommand::Help => CliCommandView::Help,
            CliCommand::Unknown(a) => CliCommandView::Unknown(a@),
        }
    }
}

/// The command for the program's first argument, `None` when there is
/// none.
pub fn cli_command(arg: Option<&str>) -> (c: CliCommand)
    ensures
        c@ == spec_cli_command(
            match arg {
                Some(a) => Some(a@),
                None => None,
            },
        ),
{
    match arg {
        None => CliCommand::Run,
        Some(a) => {
            if spelled(a, "--install-autostart") {
                CliCommand::InstallAutostart
            } else if spelled(a, "--uninstall-autostart") {
                CliCommand::UninstallAutostart
            } else if spelled(a, "--help") || spelled(a, "-h") {
                CliCommand::Help
            } else {
                CliCommand::Unknown(String::from_str(a))
            }
        },
    }
}

/// The config watcher's memory: the modification time last seen, in
/// nanoseconds from the Unix epoch (negative before it), `None` while the
/// file is missing.
#[derive(Debug, Clone, Copy, PartialEq, Eq, Structural)]
pub struct ConfigWatch {
    pub last_mtime: Option<i128>,
}

impl ConfigWatch {
    /// Start from the modification time seen first.
    pub fn new(mtime: Option<i128>) -> (w: ConfigWatch)
        ensures
            w.last_mtime == mtime,
    {
        ConfigWatch { last_mtime: mtime }
    }

    /// Take a new reading of the modification time; true when the config
    /// should be reloaded: the time changed and the file is there.
    pub fn observe(&mut self, mtime: Option<i128>) -> (reload: bool)
        ensures
            final(self).last_mtime == mtime,
            reload == (mtime != old(self).last_mtime && mtime is Some),
    {
        let changed = match (self.last_mtime, mtime) {
            (Some(a), Some(b)) => a != b,
            (None, None) => false,
            _ => true,
        };
        self.last_mtime = mtime;
        changed && mtime.is_some()
    }
}

} // verus!
