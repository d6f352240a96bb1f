# quickshot

A screenshot daemon: global hotkeys open a full-screen overlay over a
captured frame, where a region is dragged, adjusted by its anchors,
annotated (arrow, rectangle, ellipse, mosaic, pen, text) and confirmed to
the clipboard, pinned as a floating preview, or saved.

The crate is a Verus-verified library (`src/`) with a thin application
around it (`app/`).

## Library (`src/`)

- `overlay` — the overlay's state machine: every window event is a step
  `(state, event) -> (state, response)` stated as a spec function and
  implemented by `Overlay::handle_event`; laws about it (Escape cancels,
  Enter and double-click confirm, undo/redo keys restore the history,
  every event that fits `i32` arithmetic keeps coordinates within limits)
  are proof functions.
  - `state` — selection rectangles: normalize, clamp, translate, resize by
    anchor, and the drag/adjust transitions.
  - `hit`, `snap` — anchor hit-testing, cursor shapes, window snapping and
    the click-versus-drag threshold.
  - `annotate` — tools, colors, strokes, in-flight drawings and the
    undo/redo history with its model.
  - `toolbar`, `help_panel` — toolbar layout, hit-testing, look and
    shortcut badges; the cheatsheet layout.
  - `render`, `annotate_render` — the dimmed background (two-pass and
    precomputed paths, proved equal), outlines, anchors, label and
    magnifier placement and text, rectangle outlines, block-mean mosaics
    and the lines of a text annotation.
- `config` — hotkey strings (`Cmd+Shift+A`), their error messages, and how
  a config file's values override the defaults; parsing ignores letter case
  and the default hotkeys parse to themselves (proved).
- `file_save` — file-name templates (`{date}`, `{time}`, `{datetime}`,
  `{w}`, `{h}`, `{mode}`), the numbering of taken names, and the name the
  save dialog proposes.
- `glyph` — blending a rasterized glyph's coverage over the window buffer
  and over an exported image.
- `hotkey` — swapping the registered global hotkeys for a new pair on a
  config reload: a state machine from events (start, the system's answer
  to each registration) to actions (register, unregister, finish), with
  the rollback to the old pair when a registration is refused (proved);
  hotkey ids come from `global-hotkey` itself.
- `pin` — the pointer rules of pinned previews: drag to move, double-click
  to close.
- `app`, `tray_menu` — the daemon's requests: from hotkey ids, tray menu
  items, the command line and the config file's modification time.
- `crop`, `frame`, `pixels`, `autostart`, `strings` — cropping (through the
  `image` crate), the RGBA frame, pixel indexing, the LaunchAgent plist, and
  character helpers.

## Application (`app/`)

The winit event loop, softbuffer windows, screen capture, clipboard,
global hotkeys, tray menu, notifications, fonts, TOML decoding, file I/O
and the antialiased (floating-point) drawing. The daemon performs the
hotkey swap's actions and feeds the answers back.

The screen-capture crate `xcap` is not among the dependencies: with it the
dependency set grew past what this build allows, so `app/capture.rs`, which
calls it, does not type-check here.

## Tests

`tests/` exercises the library on concrete values, including the scenarios
of the laws.
