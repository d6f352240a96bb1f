//! Layout of the keyboard-shortcut cheatsheet toggled with `h`.

use vstd::prelude::*;

use super::state::{Rect, as_i32, in_i32};

verus! {

pub const PADDING: i32 = 18;
pub const LINE_HEIGHT_PX: i32 = 20;
pub const TEXT_COLOR: u32 = 0x00FF_FFFF;
/// Accent yellow for section titles.
pub const TITLE_COLOR: u32 = 0x00FF_CC00;
pub const PILL_RADIUS: i32 = 8;

/// Panel width: generous for the longest row in a monospace face.
pub const PANEL_WIDTH: i32 = 360;
/// Panel height: padding above and below nineteen rows.
pub const PANEL_HEIGHT: i32 = 416;

/// One line of the cheatsheet; titles are drawn in the accent color.
pub struct Row {
    pub text: &'static str,
    pub is_title: bool,
}

/// The cheatsheet, line by line: text and whether it is a title.
pub open spec fn help_row(i: int) -> (Seq<char>, bool) {
    if i == 0 {
        ("quickshot — keyboard shortcuts"@, true)
    } else if i == 1 {
        (""@, false)
    } else if i == 2 {
        ("Tools"@, true)
    } else if i == 3 {
        ("  M  Move        A  Arrow"@, false)
    } else if i == 4 {
        ("  R  Rect        E  Ellipse"@, false)
    } else if i == 5 {
        ("  P  Pen         T  Text"@, false)
    } else if i == 6 {
        ("  B  Mosaic"@, false)
    } else if i == 7 {
        (""@, false)
    } else if i == 8 {
        ("Color & stroke"@, true)
    } else if i == 9 {
        ("  1 Red  2 Yellow  3 Green  4 Blue"@, false)
    } else if i == 10 {
        ("  [  thinner       ]  thicker"@, false)
    } else if i == 11 {
        (""@, false)
    } else if i == 12 {
        ("Actions"@, true)
    } else if i == 13 {
        ("  Cmd+Z       undo"@, false)
    } else if i == 14 {
        ("  Cmd+Shift+Z redo"@, false)
    } else if i == 15 {
        ("  Enter       copy & save"@, false)
    } else if i == 16 {
        ("  Esc         cancel"@, false)
    } else if i == 17 {
        (""@, false)
    } else {
        ("  h           toggle this help"@, false)
    }
}

/// The nineteen rows of the cheatsheet.
pub fn rows() -> (r: Vec<Row>)
    ensures
        r@.len() == 19,
        forall|i: int| 0 <= i < 19 ==> (#[trigger] r@[i]).text@ == help_row(i).0 && r@[i].is_title
            == help_row(i).1,
{
    vec![
        Row { text: "quickshot — keyboard shortcuts", is_title: true },
        Row { text: "", is_title: false },
        Row { text: "Tools", is_title: true },
        Row { text: "  M  Move        A  Arrow", is_title: false },
        Row { text: "  R  Rect        E  Ellipse", is_title: false },
        Row { text: "  P  Pen         T  Text", is_title: false },
        Row { text: "  B  Mosaic", is_title: false },
        Row { text: "", is_title: false },
        Row { text: "Color & stroke", is_title: true },
        Row { text: "  1 Red  2 Yellow  3 Green  4 Blue", is_title: false },
        Row { text: "  [  thinner       ]  thicker", is_title: false },
        Row { text: "", is_title: false },
        Row { text: "Actions", is_title: true },
        Row { text: "  Cmd+Z       undo", is_title: false },
        Row { text: "  Cmd+Shift+Z redo", is_title: false },
        Row { text: "  Enter       copy & save", is_title: false },
        Row { text: "  Esc         cancel", is_title: false },
        Row { text: "", is_title: false },
        Row { text: "  h           toggle this help", is_title: false },
    ]
}

pub struct PanelLayout {
    pub origin: (i32, i32),
    pub size: (i32, i32),
}

/// The arithmetic of `layout` does not overflow.
pub open spec fn panel_fits(selection: Option<Rect>, window_size: (u32, u32)) -> bool {
    &&& as_i32(window_size.0) >= i32::MIN + PANEL_WIDTH + 16
    &&& as_i32(window_size.1) >= i32::MIN + PANEL_HEIGHT + 16
    &&& (selection matches Some(s) ==> in_i32(s.x + s.w) && in_i32(s.y + s.h) && in_i32(
        s.x + s.w + 8 + PANEL_WIDTH,
    ) && in_i32(s.y + s.h + 8)
        && in_i32(s.y + s.h + 8 - PANEL_HEIGHT) && in_i32(s.x + s.w + 8)
        && in_i32(s.y + s.h + 8 - PANEL_HEIGHT + PANEL_HEIGHT))
}

/// Left edge: right of the selection (or near the window's right edge),
/// then kept 8 px inside the window, the left bound winning.
pub open spec fn panel_x(selection: Option<Rect>, window_size: (u32, u32)) -> int {
    let ww = as_i32(window_size.0);
    let x0 = match selection {
        Some(s) => s.x + s.w + 8,
        None => ww - PANEL_WIDTH - 16,
    };
    let x1 = if x0 + PANEL_WIDTH > ww - 8 { ww - PANEL_WIDTH - 8 } else { x0 };
    if x1 < 8 { 8 } else { x1 }
}

/// Top edge: bottom-aligned with the selection's bottom (or near the
/// window's bottom), then kept 8 px inside the window, the top bound
/// winning.
pub open spec fn panel_y(selection: Option<Rect>, window_size: (u32, u32)) -> int {
    let wh = as_i32(window_size.1);
    let y0 = match selection {
        Some(s) => s.y + s.h + 8 - PANEL_HEIGHT,
        None => wh - PANEL_HEIGHT - 16,
    };
    let y1 = if y0 + PANEL_HEIGHT > wh - 8 { wh - PANEL_HEIGHT - 8 } else { y0 };
    if y1 < 8 { 8 } else { y1 }
}

/// Place the panel at the bottom right of the selection, or of the window
/// when there is none, clamped to stay on screen.
pub fn layout(selection: Option<Rect>, window_size: (u32, u32)) -> (l: PanelLayout)
    requires
        panel_fits(selection, window_size),
    ensures
        l.origin.0 == panel_x(selection, window_size),
        l.origin.1 == panel_y(selection, window_size),
        l.size == (PANEL_WIDTH, PANEL_HEIGHT),
        8 <= l.origin.0 && 8 <= l.origin.1,
        window_size.0 as int >= PANEL_WIDTH + 16 && window_size.0 <= i32::MAX ==> l.origin.0
            + PANEL_WIDTH <= window_size.0 - 8,
        window_size.1 as int >= PANEL_HEIGHT + 16 && window_size.1 <= i32::MAX ==> l.origin.1
            + PANEL_HEIGHT <= window_size.1 - 8,
{
    let width = PANEL_WIDTH;
    let height = PADDING * 2 + LINE_HEIGHT_PX * 19;
    let ww = super::state::u32_as_i32(window_size.0);
    let wh = super::state::u32_as_i32(window_size.1);
    let (mut x, mut y) = match selection {
        Some(s) => (s.x + s.w + 8, s.y + s.h + 8 - height),
        None => (ww - width - 16, wh - height - 16),
    };
    if x + width > ww - 8 {
        x = ww - width - 8;
    }
    if x < 8 {
        x = 8;
    }
    if y + height > wh - 8 {
        y = wh - height - 8;
    }
    if y < 8 {
        y = 8;
    }
    PanelLayout { origin: (x, y), size: (width, height) }
}

} // verus!
