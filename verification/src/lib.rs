//! Verified core of the quickshot screenshot daemon: selection geometry,
//! the overlay interaction state machine, annotation history, toolbar and
//! panel layout, pixel-buffer compositing, hotkey and filename-template
//! parsing.

pub mod app;
pub mod autostart;
pub mod capture;
pub mod config;
pub mod crop;
pub mod file_save;
pub mod frame;
pub mod glyph;
pub mod hotkey;
pub mod overlay;
pub mod permission;
pub mod pin;
pub mod pixels;
pub mod strings;
pub mod tray_menu;
