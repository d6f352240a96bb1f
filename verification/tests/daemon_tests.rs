use quickshot::app::{cli_command, hotkey_request, CliCommand, ConfigWatch, UserEvent};

#[test]
fn hotkey_ids_map_to_captures() {
    assert_eq!(hotkey_request(7, 7, 9), Some(UserEvent::CaptureRegion));
    assert_eq!(hotkey_request(9, 7, 9), Some(UserEvent::CaptureScreen));
    assert_eq!(hotkey_request(3, 7, 9), None);
}

#[test]
fn command_line_flags() {
    assert_eq!(cli_command(None), CliCommand::Run);
    assert_eq!(cli_command(Some("--install-autostart")), CliCommand::InstallAutostart);
    assert_eq!(cli_command(Some("--uninstall-autostart")), CliCommand::UninstallAutostart);
    assert_eq!(cli_command(Some("--help")), CliCommand::Help);
    assert_eq!(cli_command(Some("-h")), CliCommand::Help);
    assert_eq!(cli_command(Some("--HELP")), CliCommand::Unknown("--HELP".to_string()));
    assert_eq!(cli_command(Some("")), CliCommand::Unknown(String::new()));
}

#[test]
fn config_watch_reloads_on_change_only() {
    let mut w = ConfigWatch::new(Some(100));
    assert!(!w.observe(Some(100)));
    assert!(w.observe(Some(200)));
    assert!(!w.observe(Some(200)));
    assert!(!w.observe(None));
    assert!(w.observe(Some(200)));
    assert_eq!(w.last_mtime, Some(200));
}

#[test]
fn config_watch_starting_without_file_reloads_when_it_appears() {
    let mut w = ConfigWatch::new(None);
    assert!(!w.observe(None));
    assert!(w.observe(Some(-5)));
}
