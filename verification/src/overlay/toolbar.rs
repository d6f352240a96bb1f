//! Layout and hit testing of the mini toolbar shown under an adjusted
//! selection.

use vstd::prelude::*;

use super::annotate::{AnnotationStyle, Color, Stroke, Tool};
use super::state::{Rect, as_i32, in_i32, max, half_toward_zero, u32_as_i32, max_i32};
use crate::pixels::{buf_ok, idx, lemma_put_effect, on_canvas, put};

verus! {

/// All toolbar lengths are physical pixels at this scale.
pub const UI_SCALE: i32 = 3;

pub const TOOLBAR_H: i32 = 90;
/// Distance from the selection edge.
pub const TOOLBAR_GAP: i32 = 18;
pub const ICON_SIZE: i32 = 66;
pub const ICON_PAD: i32 = 12;
pub const SEP_WIDTH: i32 = 24;
pub const ROW_GAP: i32 = 12;
pub const SWATCH_SIZE: i32 = 42;
pub const SWATCH_PAD: i32 = 18;
pub const STROKE_DOT_AREA: i32 = 54;
pub const PILL_RADIUS: i32 = 12;

/// Brand color for confirmed-state UI, `0x00RRGGBB`.
pub const THEME_COLOR: u32 = 0x00_FF_6B_35;

/// Lighter coral used for hover / preview state.
pub const SNAP_PREVIEW_COLOR: u32 = 0x00_FF_A8_88;

/// Width of the whole bar: row 1 (7 tools, a separator, undo, redo, pin,
/// save) plus padding is wider than row 2.
pub const BAR_W: i32 = 882;
/// Height of the bar: two rows and the gap between them.
pub const BAR_H: i32 = 192;
/// Width of row 1's buttons.
pub const ROW1_CONTENT_W: i32 = 858;
/// Width of row 2's swatches and stroke dots.
pub const ROW2_CONTENT_W: i32 = 444;

pub struct Toolbar {
    pub origin: (i32, i32),
    pub size: (i32, i32),
    pub tool_buttons: Vec<ToolButton>,
    pub undo_button: IconButton,
    pub redo_button: IconButton,
    pub pin_button: IconButton,
    pub save_button: IconButton,
    pub color_buttons: Vec<ColorButton>,
    pub stroke_buttons: Vec<StrokeButton>,
}

pub struct ToolButton {
    pub tool: Tool,
    pub origin: (i32, i32),
    pub size: (i32, i32),
}

pub struct IconButton {
    pub origin: (i32, i32),
    pub size: (i32, i32),
}

pub struct ColorButton {
    pub color: Color,
    pub origin: (i32, i32),
    pub size: (i32, i32),
}

pub struct StrokeButton {
    pub stroke: Stroke,
    pub origin: (i32, i32),
    pub size: (i32, i32),
}

/// What a click on the toolbar hit.
#[derive(Debug, Clone, Copy, PartialEq, Eq, Structural)]
pub enum ToolbarHit {
    Tool(Tool),
    Undo,
    Redo,
    Pin,
    Save,
    Color(Color),
    Stroke(Stroke),
    Nothing,
}

pub open spec fn tool_order() -> Seq<Tool> {
    seq![Tool::Move, Tool::Arrow, Tool::Rect, Tool::Ellipse, Tool::Pen, Tool::Text, Tool::Mosaic]
}

pub open spec fn color_order() -> Seq<Color> {
    seq![Color::Red, Color::Yellow, Color::Green, Color::Blue]
}

pub open spec fn stroke_order() -> Seq<Stroke> {
    seq![Stroke::Thin, Stroke::Medium, Stroke::Thick]
}

/// The bar's unclamped left edge: centered under the selection.
pub open spec fn centered_x(sel: Rect) -> int {
    sel.x + half_toward_zero(sel.w as int) - BAR_W / 2
}

pub open spec fn below_y(sel: Rect) -> int {
    sel.y + sel.h + TOOLBAR_GAP
}

pub open spec fn above_y(sel: Rect) -> int {
    sel.y - TOOLBAR_GAP - BAR_H
}

/// The layout arithmetic does not overflow.
pub open spec fn layout_fits(sel: Rect, window_size: (u32, u32)) -> bool {
    &&& in_i32(sel.x + half_toward_zero(sel.w as int))
    &&& in_i32(centered_x(sel))
    &&& in_i32(centered_x(sel) + BAR_W)
    &&& in_i32(sel.y + sel.h)
    &&& in_i32(below_y(sel))
    &&& in_i32(below_y(sel) + BAR_H)
    &&& in_i32(sel.y - TOOLBAR_GAP)
    &&& in_i32(above_y(sel))
    &&& as_i32(window_size.0) >= i32::MIN + 4 + BAR_W
    &&& as_i32(window_size.1) >= i32::MIN + 4 + BAR_H
}

/// The bar's left edge: centered under the selection, then kept 4 px
/// inside the window's left and right edges (the left edge wins when the
/// window is too narrow).
pub open spec fn layout_bar_x(sel: Rect, window_size: (u32, u32)) -> int {
    let wwi = as_i32(window_size.0);
    let x0 = centered_x(sel);
    let x1 = if x0 < 4 { 4 } else { x0 };
    if x1 + BAR_W > wwi - 4 { max(wwi - 4 - BAR_W, 4) } else { x1 }
}

/// The bar's top edge: below the selection when it fits, else above it
/// when that stays 4 px inside the window, else pinned near the bottom.
pub open spec fn layout_bar_y(sel: Rect, window_size: (u32, u32)) -> int {
    let whi = as_i32(window_size.1);
    if below_y(sel) + BAR_H <= whi - 4 {
        below_y(sel)
    } else if above_y(sel) >= 4 {
        above_y(sel)
    } else {
        max(whi - BAR_H - 4, 4)
    }
}

pub open spec fn layout_row1_x(sel: Rect, ws: (u32, u32)) -> int {
    layout_bar_x(sel, ws) + (BAR_W - ROW1_CONTENT_W) / 2
}

pub open spec fn layout_row1_y(sel: Rect, ws: (u32, u32)) -> int {
    layout_bar_y(sel, ws) + (TOOLBAR_H - ICON_SIZE) / 2
}

pub open spec fn layout_row2_x(sel: Rect, ws: (u32, u32)) -> int {
    layout_bar_x(sel, ws) + (BAR_W - ROW2_CONTENT_W) / 2
}

pub open spec fn layout_row2_top(sel: Rect, ws: (u32, u32)) -> int {
    layout_bar_y(sel, ws) + TOOLBAR_H + ROW_GAP
}

/// Left edge of the undo button: after the seven tools and the separator.
pub open spec fn layout_undo_x(sel: Rect, ws: (u32, u32)) -> int {
    layout_row1_x(sel, ws) + 7 * 78 + SEP_WIDTH
}

/// Left edge of the first stroke dot: after the four swatches and the
/// separator.
pub open spec fn layout_strokes_x(sel: Rect, ws: (u32, u32)) -> int {
    layout_row2_x(sel, ws) + 4 * 60 + SEP_WIDTH
}

/// `t` is exactly the layout for a selection and window size.
pub open spec fn is_layout(t: &Toolbar, sel: Rect, ws: (u32, u32)) -> bool {
    &&& t.origin.0 == layout_bar_x(sel, ws) && t.origin.1 == layout_bar_y(sel, ws)
    &&& t.size == (BAR_W, BAR_H)
    &&& t.tool_buttons@.len() == 7
    &&& forall|i: int|
        0 <= i < 7 ==> {
            &&& (#[trigger] t.tool_buttons@[i]).tool == tool_order()[i]
            &&& t.tool_buttons@[i].origin.0 == layout_row1_x(sel, ws) + i * 78
            &&& t.tool_buttons@[i].origin.1 == layout_row1_y(sel, ws)
            &&& t.tool_buttons@[i].size == (ICON_SIZE, ICON_SIZE)
        }
    &&& t.undo_button.origin.0 == layout_undo_x(sel, ws)
    &&& t.redo_button.origin.0 == layout_undo_x(sel, ws) + (ICON_SIZE + ICON_PAD)
    &&& t.pin_button.origin.0 == layout_undo_x(sel, ws) + 2 * (ICON_SIZE + ICON_PAD)
    &&& t.save_button.origin.0 == layout_undo_x(sel, ws) + 3 * (ICON_SIZE + ICON_PAD)
    &&& t.undo_button.origin.1 == layout_row1_y(sel, ws) && t.redo_button.origin.1 == layout_row1_y(sel, ws)
    &&& t.pin_button.origin.1 == layout_row1_y(sel, ws) && t.save_button.origin.1 == layout_row1_y(sel, ws)
    &&& t.undo_button.size == (ICON_SIZE, ICON_SIZE) && t.redo_button.size == (ICON_SIZE, ICON_SIZE)
    &&& t.pin_button.size == (ICON_SIZE, ICON_SIZE) && t.save_button.size == (ICON_SIZE, ICON_SIZE)
    &&& t.color_buttons@.len() == 4
    &&& forall|i: int|
        0 <= i < 4 ==> {
            &&& (#[trigger] t.color_buttons@[i]).color == color_order()[i]
            &&& t.color_buttons@[i].origin.0 == layout_row2_x(sel, ws) + i * 60
            &&& t.color_buttons@[i].origin.1 == layout_row2_top(sel, ws) + (TOOLBAR_H - SWATCH_SIZE) / 2
            &&& t.color_buttons@[i].size == (SWATCH_SIZE, SWATCH_SIZE)
        }
    &&& t.stroke_buttons@.len() == 3
    &&& forall|i: int|
        0 <= i < 3 ==> {
            &&& (#[trigger] t.stroke_buttons@[i]).stroke == stroke_order()[i]
            &&& t.stroke_buttons@[i].origin.0 == layout_strokes_x(sel, ws) + i * 72
            &&& t.stroke_buttons@[i].origin.1 == layout_row2_top(sel, ws) + (TOOLBAR_H - STROKE_DOT_AREA)
                / 2
            &&& t.stroke_buttons@[i].size == (STROKE_DOT_AREA, STROKE_DOT_AREA)
        }
}

fn tool_at(i: usize) -> (t: Tool)
    requires
        i < 7,
    ensures
        t == tool_order()[i as int],
{
    match i {
        0 => Tool::Move,
        1 => Tool::Arrow,
        2 => Tool::Rect,
        3 => Tool::Ellipse,
        4 => Tool::Pen,
        5 => Tool::Text,
        _ => Tool::Mosaic,
    }
}

fn color_at(i: usize) -> (c: Color)
    requires
        i < 4,
    ensures
        c == color_order()[i as int],
{
    match i {
        0 => Color::Red,
        1 => Color::Yellow,
        2 => Color::Green,
        _ => Color::Blue,
    }
}

fn stroke_at(i: usize) -> (s: Stroke)
    requires
        i < 3,
    ensures
        s == stroke_order()[i as int],
{
    match i {
        0 => Stroke::Thin,
        1 => Stroke::Medium,
        _ => Stroke::Thick,
    }
}

/// Half-open point-in-box test.
pub open spec fn spec_point_in(p: (i32, i32), origin: (i32, i32), size: (i32, i32)) -> bool {
    p.0 >= origin.0 && p.1 >= origin.1 && p.0 < origin.0 + size.0 && p.1 < origin.1 + size.1
}

pub open spec fn box_fits(origin: (i32, i32), size: (i32, i32)) -> bool {
    in_i32(origin.0 + size.0) && in_i32(origin.1 + size.1)
}

pub fn point_in(p: (i32, i32), origin: (i32, i32), size: (i32, i32)) -> (b: bool)
    requires
        box_fits(origin, size),
    ensures
        b == spec_point_in(p, origin, size),
{
    p.0 >= origin.0 && p.1 >= origin.1 && p.0 < origin.0 + size.0 && p.1 < origin.1 + size.1
}

/// The first tool button containing the cursor.
pub open spec fn first_tool_hit(b: Seq<ToolButton>, p: (i32, i32)) -> Option<Tool>
    decreases b.len(),
{
    if b.len() == 0 {
        None
    } else if spec_point_in(p, b[0].origin, b[0].size) {
        Some(b[0].tool)
    } else {
        first_tool_hit(b.drop_first(), p)
    }
}

pub open spec fn first_color_hit(b: Seq<ColorButton>, p: (i32, i32)) -> Option<Color>
    decreases b.len(),
{
    if b.len() == 0 {
        None
    } else if spec_point_in(p, b[0].origin, b[0].size) {
        Some(b[0].color)
    } else {
        first_color_hit(b.drop_first(), p)
    }
}

pub open spec fn first_stroke_hit(b: Seq<StrokeButton>, p: (i32, i32)) -> Option<Stroke>
    decreases b.len(),
{
    if b.len() == 0 {
        None
    } else if spec_point_in(p, b[0].origin, b[0].size) {
        Some(b[0].stroke)
    } else {
        first_stroke_hit(b.drop_first(), p)
    }
}

/// The first tool button, from index `i` on, that holds `p` in the layout
/// for `sel`.
pub open spec fn tool_hit_from(sel: Rect, ws: (u32, u32), p: (i32, i32), i: int) -> Option<Tool>
    decreases 7 - i,
{
    if i < 0 || i >= 7 {
        None
    } else if spec_point_in(
        p,
        ((layout_row1_x(sel, ws) + i * 78) as i32, layout_row1_y(sel, ws) as i32),
        (ICON_SIZE, ICON_SIZE),
    ) {
        Some(tool_order()[i])
    } else {
        tool_hit_from(sel, ws, p, i + 1)
    }
}

pub open spec fn color_hit_from(sel: Rect, ws: (u32, u32), p: (i32, i32), i: int) -> Option<Color>
    decreases 4 - i,
{
    if i < 0 || i >= 4 {
        None
    } else if spec_point_in(
        p,
        (
            (layout_row2_x(sel, ws) + i * 60) as i32,
            (layout_row2_top(sel, ws) + (TOOLBAR_H - SWATCH_SIZE) / 2) as i32,
        ),
        (SWATCH_SIZE, SWATCH_SIZE),
    ) {
        Some(color_order()[i])
    } else {
        color_hit_from(sel, ws, p, i + 1)
    }
}

pub open spec fn stroke_hit_from(sel: Rect, ws: (u32, u32), p: (i32, i32), i: int) -> Option<Stroke>
    decreases 3 - i,
{
    if i < 0 || i >= 3 {
        None
    } else if spec_point_in(
        p,
        (
            (layout_strokes_x(sel, ws) + i * 72) as i32,
            (layout_row2_top(sel, ws) + (TOOLBAR_H - STROKE_DOT_AREA) / 2) as i32,
        ),
        (STROKE_DOT_AREA, STROKE_DOT_AREA),
    ) {
        Some(stroke_order()[i])
    } else {
        stroke_hit_from(sel, ws, p, i + 1)
    }
}

/// Left edge of the `k`-th icon after the separator of row 1 (undo, redo,
/// pin, save).
pub open spec fn icon_box(sel: Rect, ws: (u32, u32), k: int) -> (i32, i32) {
    ((layout_undo_x(sel, ws) + k * 78) as i32, layout_row1_y(sel, ws) as i32)
}

/// What a click at `p` hits on the toolbar laid out for `sel` in a window
/// of size `ws`, with `active_tool` selected.
pub open spec fn layout_hit(sel: Rect, ws: (u32, u32), p: (i32, i32), active_tool: Tool) -> ToolbarHit {
    let icon = (ICON_SIZE, ICON_SIZE);
    if tool_hit_from(sel, ws, p, 0) is Some {
        ToolbarHit::Tool(tool_hit_from(sel, ws, p, 0)->0)
    } else if spec_point_in(p, icon_box(sel, ws, 0), icon) {
        ToolbarHit::Undo
    } else if spec_point_in(p, icon_box(sel, ws, 1), icon) {
        ToolbarHit::Redo
    } else if spec_point_in(p, icon_box(sel, ws, 2), icon) {
        ToolbarHit::Pin
    } else if spec_point_in(p, icon_box(sel, ws, 3), icon) {
        ToolbarHit::Save
    } else if active_tool != Tool::Mosaic && color_hit_from(sel, ws, p, 0) is Some {
        ToolbarHit::Color(color_hit_from(sel, ws, p, 0)->0)
    } else if stroke_hit_from(sel, ws, p, 0) is Some {
        ToolbarHit::Stroke(stroke_hit_from(sel, ws, p, 0)->0)
    } else {
        ToolbarHit::Nothing
    }
}

proof fn lemma_tool_hits(t: &Toolbar, sel: Rect, ws: (u32, u32), p: (i32, i32), i: int)
    requires
        is_layout(t, sel, ws),
        0 <= i <= 7,
    ensures
        first_tool_hit(t.tool_buttons@.skip(i), p) == tool_hit_from(sel, ws, p, i),
    decreases 7 - i,
{
    if i < 7 {
        lemma_tool_hits(t, sel, ws, p, i + 1);
        assert(t.tool_buttons@.skip(i)[0] == t.tool_buttons@[i]);
        assert(t.tool_buttons@.skip(i).drop_first() =~= t.tool_buttons@.skip(i + 1));
    } else {
        assert(t.tool_buttons@.skip(i).len() == 0);
    }
}

proof fn lemma_color_hits(t: &Toolbar, sel: Rect, ws: (u32, u32), p: (i32, i32), i: int)
    requires
        is_layout(t, sel, ws),
        0 <= i <= 4,
    ensures
        first_color_hit(t.color_buttons@.skip(i), p) == color_hit_from(sel, ws, p, i),
    decreases 4 - i,
{
    if i < 4 {
        lemma_color_hits(t, sel, ws, p, i + 1);
        assert(t.color_buttons@.skip(i)[0] == t.color_buttons@[i]);
        assert(t.color_buttons@.skip(i).drop_first() =~= t.color_buttons@.skip(i + 1));
    } else {
        assert(t.color_buttons@.skip(i).len() == 0);
    }
}

proof fn lemma_stroke_hits(t: &Toolbar, sel: Rect, ws: (u32, u32), p: (i32, i32), i: int)
    requires
        is_layout(t, sel, ws),
        0 <= i <= 3,
    ensures
        first_stroke_hit(t.stroke_buttons@.skip(i), p) == stroke_hit_from(sel, ws, p, i),
    decreases 3 - i,
{
    if i < 3 {
        lemma_stroke_hits(t, sel, ws, p, i + 1);
        assert(t.stroke_buttons@.skip(i)[0] == t.stroke_buttons@[i]);
        assert(t.stroke_buttons@.skip(i).drop_first() =~= t.stroke_buttons@.skip(i + 1));
    } else {
        assert(t.stroke_buttons@.skip(i).len() == 0);
    }
}

/// On a laid-out toolbar, the hit test depends only on the selection, the
/// window size, the cursor and the active tool.
pub proof fn lemma_layout_hit(t: &Toolbar, sel: Rect, ws: (u32, u32), p: (i32, i32), active_tool: Tool)
    requires
        is_layout(t, sel, ws),
    ensures
        t.spec_hit(p, active_tool) == layout_hit(sel, ws, p, active_tool),
{
    lemma_tool_hits(t, sel, ws, p, 0);
    lemma_color_hits(t, sel, ws, p, 0);
    lemma_stroke_hits(t, sel, ws, p, 0);
    assert(t.tool_buttons@.skip(0) =~= t.tool_buttons@);
    assert(t.color_buttons@.skip(0) =~= t.color_buttons@);
    assert(t.stroke_buttons@.skip(0) =~= t.stroke_buttons@);
}

/// The box at `origin` of `size` lies inside the toolbar's bar.
pub open spec fn inside_bar(t: &Toolbar, origin: (i32, i32), size: (i32, i32)) -> bool {
    &&& t.origin.0 <= origin.0 && origin.0 + size.0 <= t.origin.0 + t.size.0
    &&& t.origin.1 <= origin.1 && origin.1 + size.1 <= t.origin.1 + t.size.1
}

/// On a laid-out toolbar every button lies inside the bar. Row 1 holds the
/// seven tools in their fixed order, then undo, redo, pin and save, each
/// starting to the right of where the one before ends; row 2 holds the four
/// swatches, then the three stroke dots, likewise; and row 2 lies below
/// row 1.
pub proof fn lemma_layout_structure(t: &Toolbar, sel: Rect, ws: (u32, u32))
    requires
        is_layout(t, sel, ws),
    ensures
        forall|i: int| 0 <= i < 7 ==> inside_bar(t, (#[trigger] t.tool_buttons@[i]).origin, t.tool_buttons@[i].size),
        forall|i: int| 0 <= i < 4 ==> inside_bar(t, (#[trigger] t.color_buttons@[i]).origin, t.color_buttons@[i].size),
        forall|i: int| 0 <= i < 3 ==> inside_bar(t, (#[trigger] t.stroke_buttons@[i]).origin, t.stroke_buttons@[i].size),
        inside_bar(t, t.undo_button.origin, t.undo_button.size),
        inside_bar(t, t.redo_button.origin, t.redo_button.size),
        inside_bar(t, t.pin_button.origin, t.pin_button.size),
        inside_bar(t, t.save_button.origin, t.save_button.size),
        forall|i: int, j: int|
            0 <= i < j < 7 ==> (#[trigger] t.tool_buttons@[i]).origin.0 + t.tool_buttons@[i].size.0
                < (#[trigger] t.tool_buttons@[j]).origin.0,
        t.tool_buttons@[6].origin.0 + t.tool_buttons@[6].size.0 < t.undo_button.origin.0,
        t.undo_button.origin.0 + t.undo_button.size.0 < t.redo_button.origin.0,
        t.redo_button.origin.0 + t.redo_button.size.0 < t.pin_button.origin.0,
        t.pin_button.origin.0 + t.pin_button.size.0 < t.save_button.origin.0,
        forall|i: int, j: int|
            0 <= i < j < 4 ==> (#[trigger] t.color_buttons@[i]).origin.0 + t.color_buttons@[i].size.0
                < (#[trigger] t.color_buttons@[j]).origin.0,
        t.color_buttons@[3].origin.0 + t.color_buttons@[3].size.0 < t.stroke_buttons@[0].origin.0,
        forall|i: int, j: int|
            0 <= i < j < 3 ==> (#[trigger] t.stroke_buttons@[i]).origin.0 + t.stroke_buttons@[i].size.0
                < (#[trigger] t.stroke_buttons@[j]).origin.0,
        forall|i: int, j: int|
            0 <= i < 7 && 0 <= j < 4 ==> (#[trigger] t.tool_buttons@[i]).origin.1
                + t.tool_buttons@[i].size.1 < (#[trigger] t.color_buttons@[j]).origin.1,
        forall|i: int, j: int|
            0 <= i < 7 && 0 <= j < 3 ==> (#[trigger] t.tool_buttons@[i]).origin.1
                + t.tool_buttons@[i].size.1 < (#[trigger] t.stroke_buttons@[j]).origin.1,
{
    assert(t.tool_buttons@[6].origin.0 == layout_row1_x(sel, ws) + 6 * 78);
    assert(t.color_buttons@[3].origin.0 == layout_row2_x(sel, ws) + 3 * 60);
    assert(t.stroke_buttons@[0].origin.0 == layout_strokes_x(sel, ws));
}

/// Button `k` of the toolbar in reading order: the seven tools, undo, redo,
/// pin, save, the four swatches, the three stroke dots.
pub open spec fn button_box(t: &Toolbar, k: int) -> ((i32, i32), (i32, i32)) {
    if k < 7 {
        (t.tool_buttons@[k].origin, t.tool_buttons@[k].size)
    } else if k == 7 {
        (t.undo_button.origin, t.undo_button.size)
    } else if k == 8 {
        (t.redo_button.origin, t.redo_button.size)
    } else if k == 9 {
        (t.pin_button.origin, t.pin_button.size)
    } else if k == 10 {
        (t.save_button.origin, t.save_button.size)
    } else if k < 15 {
        (t.color_buttons@[k - 11].origin, t.color_buttons@[k - 11].size)
    } else {
        (t.stroke_buttons@[k - 15].origin, t.stroke_buttons@[k - 15].size)
    }
}

/// Two boxes share no pixel.
pub open spec fn disjoint(a: ((i32, i32), (i32, i32)), b: ((i32, i32), (i32, i32))) -> bool {
    a.0.0 + a.1.0 <= b.0.0 || b.0.0 + b.1.0 <= a.0.0 || a.0.1 + a.1.1 <= b.0.1 || b.0.1 + b.1.1
        <= a.0.1
}

/// The eighteen buttons of a laid-out toolbar are pairwise disjoint; the
/// tools, swatches and stroke dots come in their fixed orders; row 1 (tools,
/// undo, redo, pin, save) shares one top edge, and row 2 starts below row 1
/// ends.
pub proof fn lemma_layout_disjoint(t: &Toolbar, sel: Rect, ws: (u32, u32))
    requires
        is_layout(t, sel, ws),
    ensures
        forall|i: int, j: int| 0 <= i < j < 18 ==> disjoint(#[trigger] button_box(t, i), #[trigger] button_box(t, j)),
        forall|i: int| 0 <= i < 7 ==> (#[trigger] t.tool_buttons@[i]).tool == tool_order()[i],
        forall|i: int| 0 <= i < 4 ==> (#[trigger] t.color_buttons@[i]).color == color_order()[i],
        forall|i: int| 0 <= i < 3 ==> (#[trigger] t.stroke_buttons@[i]).stroke == stroke_order()[i],
        forall|k: int| 0 <= k < 11 ==> (#[trigger] button_box(t, k)).0.1 == t.tool_buttons@[0].origin.1,
        forall|k: int, m: int|
            0 <= k < 11 <= m < 18 ==> (#[trigger] button_box(t, k)).0.1 + button_box(t, k).1.1
                < (#[trigger] button_box(t, m)).0.1,
{
    assert forall|k: int| 0 <= k < 18 implies {
        let b = #[trigger] button_box(t, k);
        &&& k < 7 ==> b.0.0 == layout_row1_x(sel, ws) + k * 78 && b.0.1 == layout_row1_y(sel, ws) && b.1 == (ICON_SIZE, ICON_SIZE)
        &&& 7 <= k < 11 ==> b.0.0 == layout_undo_x(sel, ws) + (k - 7) * 78 && b.0.1 == layout_row1_y(sel, ws) && b.1 == (ICON_SIZE, ICON_SIZE)
        &&& 11 <= k < 15 ==> b.0.0 == layout_row2_x(sel, ws) + (k - 11) * 60 && b.0.1 == layout_row2_top(sel, ws) + (TOOLBAR_H - SWATCH_SIZE) / 2 && b.1 == (SWATCH_SIZE, SWATCH_SIZE)
        &&& 15 <= k < 18 ==> b.0.0 == layout_strokes_x(sel, ws) + (k - 15) * 72 && b.0.1 == layout_row2_top(sel, ws) + (TOOLBAR_H - STROKE_DOT_AREA) / 2 && b.1 == (STROKE_DOT_AREA, STROKE_DOT_AREA)
    } by {
        if k < 7 {
            assert(t.tool_buttons@[k].origin.0 == layout_row1_x(sel, ws) + k * 78);
        } else if 11 <= k < 15 {
            assert(t.color_buttons@[k - 11].origin.0 == layout_row2_x(sel, ws) + (k - 11) * 60);
        } else if 15 <= k {
            assert(t.stroke_buttons@[k - 15].origin.0 == layout_strokes_x(sel, ws) + (k - 15) * 72);
        }
    }
    assert(t.tool_buttons@[0].origin.1 == layout_row1_y(sel, ws));
}

/// A point in tool button `i` is found there by the search from any
/// earlier button `m`.
proof fn lemma_tool_found(t: &Toolbar, sel: Rect, ws: (u32, u32), p: (i32, i32), i: int, m: int)
    requires
        is_layout(t, sel, ws),
        0 <= m <= i < 7,
        spec_point_in(p, t.tool_buttons@[i].origin, t.tool_buttons@[i].size),
    ensures
        tool_hit_from(sel, ws, p, m) == Some(tool_order()[i]),
    decreases i - m,
{
    assert(t.tool_buttons@[m].origin.0 == layout_row1_x(sel, ws) + m * 78);
    assert(t.tool_buttons@[i].origin.0 == layout_row1_x(sel, ws) + i * 78);
    if m < i {
        lemma_tool_found(t, sel, ws, p, i, m + 1);
    }
}

/// A point outside row 1's band is in no tool button.
proof fn lemma_tool_missed(t: &Toolbar, sel: Rect, ws: (u32, u32), p: (i32, i32), m: int)
    requires
        is_layout(t, sel, ws),
        0 <= m <= 7,
        p.1 < layout_row1_y(sel, ws) || p.1 >= layout_row1_y(sel, ws) + ICON_SIZE || p.0
            >= layout_row1_x(sel, ws) + 7 * 78,
    ensures
        tool_hit_from(sel, ws, p, m) is None,
    decreases 7 - m,
{
    if m < 7 {
        assert(t.tool_buttons@[m].origin.0 == layout_row1_x(sel, ws) + m * 78);
        lemma_tool_missed(t, sel, ws, p, m + 1);
    }
}

proof fn lemma_color_found(t: &Toolbar, sel: Rect, ws: (u32, u32), p: (i32, i32), i: int, m: int)
    requires
        is_layout(t, sel, ws),
        0 <= m <= i < 4,
        spec_point_in(p, t.color_buttons@[i].origin, t.color_buttons@[i].size),
    ensures
        color_hit_from(sel, ws, p, m) == Some(color_order()[i]),
    decreases i - m,
{
    assert(t.color_buttons@[m].origin.0 == layout_row2_x(sel, ws) + m * 60);
    assert(t.color_buttons@[i].origin.0 == layout_row2_x(sel, ws) + i * 60);
    if m < i {
        lemma_color_found(t, sel, ws, p, i, m + 1);
    }
}

proof fn lemma_color_missed(t: &Toolbar, sel: Rect, ws: (u32, u32), p: (i32, i32), m: int)
    requires
        is_layout(t, sel, ws),
        0 <= m <= 4,
        p.0 >= layout_row2_x(sel, ws) + 4 * 60,
    ensures
        color_hit_from(sel, ws, p, m) is None,
    decreases 4 - m,
{
    if m < 4 {
        assert(t.color_buttons@[m].origin.0 == layout_row2_x(sel, ws) + m * 60);
        lemma_color_missed(t, sel, ws, p, m + 1);
    }
}

proof fn lemma_stroke_found(t: &Toolbar, sel: Rect, ws: (u32, u32), p: (i32, i32), i: int, m: int)
    requires
        is_layout(t, sel, ws),
        0 <= m <= i < 3,
        spec_point_in(p, t.stroke_buttons@[i].origin, t.stroke_buttons@[i].size),
    ensures
        stroke_hit_from(sel, ws, p, m) == Some(stroke_order()[i]),
    decreases i - m,
{
    assert(t.stroke_buttons@[m].origin.0 == layout_strokes_x(sel, ws) + m * 72);
    assert(t.stroke_buttons@[i].origin.0 == layout_strokes_x(sel, ws) + i * 72);
    if m < i {
        lemma_stroke_found(t, sel, ws, p, i, m + 1);
    }
}

proof fn lemma_stroke_missed(t: &Toolbar, sel: Rect, ws: (u32, u32), p: (i32, i32), m: int)
    requires
        is_layout(t, sel, ws),
        0 <= m <= 3,
        p.0 < layout_strokes_x(sel, ws),
    ensures
        stroke_hit_from(sel, ws, p, m) is None,
    decreases 3 - m,
{
    if m < 3 {
        assert(t.stroke_buttons@[m].origin.0 == layout_strokes_x(sel, ws) + m * 72);
        lemma_stroke_missed(t, sel, ws, p, m + 1);
    }
}

proof fn lemma_tool_none(t: &Toolbar, sel: Rect, ws: (u32, u32), p: (i32, i32), m: int)
    requires
        is_layout(t, sel, ws),
        0 <= m <= 7,
        forall|i: int| m <= i < 7 ==> !spec_point_in(p, (#[trigger] t.tool_buttons@[i]).origin, t.tool_buttons@[i].size),
    ensures
        tool_hit_from(sel, ws, p, m) is None,
    decreases 7 - m,
{
    if m < 7 {
        assert(t.tool_buttons@[m].origin.0 == layout_row1_x(sel, ws) + m * 78);
        lemma_tool_none(t, sel, ws, p, m + 1);
    }
}

proof fn lemma_color_none(t: &Toolbar, sel: Rect, ws: (u32, u32), p: (i32, i32), m: int)
    requires
        is_layout(t, sel, ws),
        0 <= m <= 4,
        forall|i: int| m <= i < 4 ==> !spec_point_in(p, (#[trigger] t.color_buttons@[i]).origin, t.color_buttons@[i].size),
    ensures
        color_hit_from(sel, ws, p, m) is None,
    decreases 4 - m,
{
    if m < 4 {
        assert(t.color_buttons@[m].origin.0 == layout_row2_x(sel, ws) + m * 60);
        lemma_color_none(t, sel, ws, p, m + 1);
    }
}

proof fn lemma_stroke_none(t: &Toolbar, sel: Rect, ws: (u32, u32), p: (i32, i32), m: int)
    requires
        is_layout(t, sel, ws),
        0 <= m <= 3,
        forall|i: int| m <= i < 3 ==> !spec_point_in(p, (#[trigger] t.stroke_buttons@[i]).origin, t.stroke_buttons@[i].size),
    ensures
        stroke_hit_from(sel, ws, p, m) is None,
    decreases 3 - m,
{
    if m < 3 {
        assert(t.stroke_buttons@[m].origin.0 == layout_strokes_x(sel, ws) + m * 72);
        lemma_stroke_none(t, sel, ws, p, m + 1);
    }
}

/// On a laid-out toolbar a click in none of the buttons hits nothing.
pub proof fn lemma_layout_miss(t: &Toolbar, sel: Rect, ws: (u32, u32), p: (i32, i32), active_tool: Tool)
    requires
        is_layout(t, sel, ws),
        forall|k: int| 0 <= k < 18 ==> !spec_point_in(p, (#[trigger] button_box(t, k)).0, button_box(t, k).1),
    ensures
        t.spec_hit(p, active_tool) == ToolbarHit::Nothing,
{
    lemma_layout_hit(t, sel, ws, p, active_tool);
    assert forall|i: int| 0 <= i < 7 implies !spec_point_in(p, (#[trigger] t.tool_buttons@[i]).origin, t.tool_buttons@[i].size) by {
        assert(button_box(t, i) == (t.tool_buttons@[i].origin, t.tool_buttons@[i].size));
    }
    assert forall|i: int| 0 <= i < 4 implies !spec_point_in(p, (#[trigger] t.color_buttons@[i]).origin, t.color_buttons@[i].size) by {
        assert(button_box(t, i + 11) == (t.color_buttons@[i].origin, t.color_buttons@[i].size));
    }
    assert forall|i: int| 0 <= i < 3 implies !spec_point_in(p, (#[trigger] t.stroke_buttons@[i]).origin, t.stroke_buttons@[i].size) by {
        assert(button_box(t, i + 15) == (t.stroke_buttons@[i].origin, t.stroke_buttons@[i].size));
    }
    assert(button_box(t, 7) == (t.undo_button.origin, t.undo_button.size));
    assert(button_box(t, 8) == (t.redo_button.origin, t.redo_button.size));
    assert(button_box(t, 9) == (t.pin_button.origin, t.pin_button.size));
    assert(button_box(t, 10) == (t.save_button.origin, t.save_button.size));
    lemma_tool_none(t, sel, ws, p, 0);
    lemma_color_none(t, sel, ws, p, 0);
    lemma_stroke_none(t, sel, ws, p, 0);
}

/// On a laid-out toolbar a click inside a button hits that button: the
/// tool, undo, redo, pin or save button, the stroke dot, and the color
/// swatch unless the Mosaic tool is active (its swatches take no clicks,
/// and the click hits nothing).
pub proof fn lemma_layout_button_hits(t: &Toolbar, sel: Rect, ws: (u32, u32), p: (i32, i32), active_tool: Tool)
    requires
        is_layout(t, sel, ws),
    ensures
        forall|i: int|
            0 <= i < 7 && spec_point_in(p, (#[trigger] t.tool_buttons@[i]).origin, t.tool_buttons@[i].size)
                ==> t.spec_hit(p, active_tool) == ToolbarHit::Tool(t.tool_buttons@[i].tool),
        spec_point_in(p, t.undo_button.origin, t.undo_button.size) ==> t.spec_hit(p, active_tool)
            == ToolbarHit::Undo,
        spec_point_in(p, t.redo_button.origin, t.redo_button.size) ==> t.spec_hit(p, active_tool)
            == ToolbarHit::Redo,
        spec_point_in(p, t.pin_button.origin, t.pin_button.size) ==> t.spec_hit(p, active_tool)
            == ToolbarHit::Pin,
        spec_point_in(p, t.save_button.origin, t.save_button.size) ==> t.spec_hit(p, active_tool)
            == ToolbarHit::Save,
        forall|j: int|
            0 <= j < 4 && spec_point_in(p, (#[trigger] t.color_buttons@[j]).origin, t.color_buttons@[j].size)
                ==> t.spec_hit(p, active_tool) == if active_tool != Tool::Mosaic {
                ToolbarHit::Color(t.color_buttons@[j].color)
            } else {
                ToolbarHit::Nothing
            },
        forall|k: int|
            0 <= k < 3 && spec_point_in(p, (#[trigger] t.stroke_buttons@[k]).origin, t.stroke_buttons@[k].size)
                ==> t.spec_hit(p, active_tool) == ToolbarHit::Stroke(t.stroke_buttons@[k].stroke),
{
    lemma_layout_hit(t, sel, ws, p, active_tool);
    assert forall|i: int|
        0 <= i < 7 && spec_point_in(p, (#[trigger] t.tool_buttons@[i]).origin, t.tool_buttons@[i].size)
            implies t.spec_hit(p, active_tool) == ToolbarHit::Tool(t.tool_buttons@[i].tool) by {
        lemma_tool_found(t, sel, ws, p, i, 0);
    }
    if spec_point_in(p, t.undo_button.origin, t.undo_button.size) || spec_point_in(
        p,
        t.redo_button.origin,
        t.redo_button.size,
    ) || spec_point_in(p, t.pin_button.origin, t.pin_button.size) || spec_point_in(
        p,
        t.save_button.origin,
        t.save_button.size,
    ) {
        lemma_tool_missed(t, sel, ws, p, 0);
    }
    assert forall|j: int|
        0 <= j < 4 && spec_point_in(p, (#[trigger] t.color_buttons@[j]).origin, t.color_buttons@[j].size)
            implies t.spec_hit(p, active_tool) == if active_tool != Tool::Mosaic {
            ToolbarHit::Color(t.color_buttons@[j].color)
        } else {
            ToolbarHit::Nothing
        } by {
        assert(t.color_buttons@[j].origin.0 == layout_row2_x(sel, ws) + j * 60);
        lemma_tool_missed(t, sel, ws, p, 0);
        lemma_color_found(t, sel, ws, p, j, 0);
        lemma_stroke_missed(t, sel, ws, p, 0);
    }
    assert forall|k: int|
        0 <= k < 3 && spec_point_in(p, (#[trigger] t.stroke_buttons@[k]).origin, t.stroke_buttons@[k].size)
            implies t.spec_hit(p, active_tool) == ToolbarHit::Stroke(t.stroke_buttons@[k].stroke) by {
        assert(t.stroke_buttons@[k].origin.0 == layout_strokes_x(sel, ws) + k * 72);
        lemma_tool_missed(t, sel, ws, p, 0);
        lemma_color_missed(t, sel, ws, p, 0);
        lemma_stroke_found(t, sel, ws, p, k, 0);
    }
}

impl Toolbar {
    /// Every button box has representable edges.
    pub open spec fn buttons_fit(&self) -> bool {
        &&& forall|i: int|
            0 <= i < self.tool_buttons@.len() ==> box_fits(
                (#[trigger] self.tool_buttons@[i]).origin,
                self.tool_buttons@[i].size,
            )
        &&& forall|i: int|
            0 <= i < self.color_buttons@.len() ==> box_fits(
                (#[trigger] self.color_buttons@[i]).origin,
                self.color_buttons@[i].size,
            )
        &&& forall|i: int|
            0 <= i < self.stroke_buttons@.len() ==> box_fits(
                (#[trigger] self.stroke_buttons@[i]).origin,
                self.stroke_buttons@[i].size,
            )
        &&& box_fits(self.undo_button.origin, self.undo_button.size)
        &&& box_fits(self.redo_button.origin, self.redo_button.size)
        &&& box_fits(self.pin_button.origin, self.pin_button.size)
        &&& box_fits(self.save_button.origin, self.save_button.size)
    }

    /// What the cursor hits: tool buttons first, then undo, redo, pin and
    /// save; the color swatches only when the active tool is not Mosaic;
    /// then the stroke dots.
    pub open spec fn spec_hit(&self, p: (i32, i32), active_tool: Tool) -> ToolbarHit {
        if first_tool_hit(self.tool_buttons@, p) is Some {
            ToolbarHit::Tool(first_tool_hit(self.tool_buttons@, p)->0)
        } else if spec_point_in(p, self.undo_button.origin, self.undo_button.size) {
            ToolbarHit::Undo
        } else if spec_point_in(p, self.redo_button.origin, self.redo_button.size) {
            ToolbarHit::Redo
        } else if spec_point_in(p, self.pin_button.origin, self.pin_button.size) {
            ToolbarHit::Pin
        } else if spec_point_in(p, self.save_button.origin, self.save_button.size) {
            ToolbarHit::Save
        } else if active_tool != Tool::Mosaic && first_color_hit(self.color_buttons@, p) is Some {
            ToolbarHit::Color(first_color_hit(self.color_buttons@, p)->0)
        } else if first_stroke_hit(self.stroke_buttons@, p) is Some {
            ToolbarHit::Stroke(first_stroke_hit(self.stroke_buttons@, p)->0)
        } else {
            ToolbarHit::Nothing
        }
    }

    /// Lay the two-row toolbar out under (or above) the selection.
    pub fn layout(selection: Rect, window_size: (u32, u32)) -> (t: Toolbar)
        requires
            layout_fits(selection, window_size),
        ensures
            is_layout(&t, selection, window_size),
            t.buttons_fit(),
    {
        let bar_w = BAR_W;
        let bar_h = TOOLBAR_H * 2 + ROW_GAP;
        let mut bar_x = selection.x + selection.w / 2 - bar_w / 2;
        let below = selection.y + selection.h + TOOLBAR_GAP;
        let wwi = u32_as_i32(window_size.0);
        let whi = u32_as_i32(window_size.1);
        if bar_x < 4 {
            bar_x = 4;
        }
        if bar_x + bar_w > wwi - 4 {
            bar_x = max_i32(wwi - 4 - bar_w, 4);
        }
        let bar_y = if below + bar_h <= whi - 4 {
            below
        } else {
            let above = selection.y - TOOLBAR_GAP - bar_h;
            if above >= 4 {
                above
            } else {
                max_i32(whi - bar_h - 4, 4)
            }
        };
        assert(bar_x == layout_bar_x(selection, window_size));
        assert(bar_y == layout_bar_y(selection, window_size));

        // Row 1: tools, separator, undo, redo, pin, save.
        let row1_x_start = bar_x + (bar_w - ROW1_CONTENT_W) / 2;
        let row1_y = bar_y + (TOOLBAR_H - ICON_SIZE) / 2;
        let mut x = row1_x_start;
        let mut tool_buttons: Vec<ToolButton> = Vec::with_capacity(7);
        let mut i: usize = 0;
        while i < 7
            invariant
                0 <= i <= 7,
                row1_x_start == layout_row1_x(selection, window_size),
                row1_y == layout_row1_y(selection, window_size),
                bar_x == layout_bar_x(selection, window_size),
                bar_y == layout_bar_y(selection, window_size),
                layout_fits(selection, window_size),
                x == row1_x_start + i * 78,
                tool_buttons@.len() == i,
                forall|j: int|
                    0 <= j < i ==> {
                        &&& (#[trigger] tool_buttons@[j]).tool == tool_order()[j]
                        &&& tool_buttons@[j].origin.0 == row1_x_start + j * 78
                        &&& tool_buttons@[j].origin.1 == row1_y
                        &&& tool_buttons@[j].size == (ICON_SIZE, ICON_SIZE)
                    },
            decreases 7 - i,
        {
            tool_buttons.push(ToolButton { tool: tool_at(i), origin: (x, row1_y), size: (ICON_SIZE, ICON_SIZE) });
            x = x + ICON_SIZE + ICON_PAD;
            i = i + 1;
        }
        x = x + SEP_WIDTH;
        let undo_button = IconButton { origin: (x, row1_y), size: (ICON_SIZE, ICON_SIZE) };
        x = x + ICON_SIZE + ICON_PAD;
        let redo_button = IconButton { origin: (x, row1_y), size: (ICON_SIZE, ICON_SIZE) };
        x = x + ICON_SIZE + ICON_PAD;
        let pin_button = IconButton { origin: (x, row1_y), size: (ICON_SIZE, ICON_SIZE) };
        x = x + ICON_SIZE + ICON_PAD;
        let save_button = IconButton { origin: (x, row1_y), size: (ICON_SIZE, ICON_SIZE) };

        // Row 2: color swatches, separator, stroke dots.
        let row2_x_start = bar_x + (bar_w - ROW2_CONTENT_W) / 2;
        let row2_top = bar_y + TOOLBAR_H + ROW_GAP;
        let row2_y = row2_top + (TOOLBAR_H - SWATCH_SIZE) / 2;
        let mut x = row2_x_start;
        let mut color_buttons: Vec<ColorButton> = Vec::with_capacity(4);
        let mut i: usize = 0;
        while i < 4
            invariant
                0 <= i <= 4,
                row2_x_start == layout_row2_x(selection, window_size),
                row2_y == layout_row2_top(selection, window_size) + (TOOLBAR_H - SWATCH_SIZE) / 2,
                bar_x == layout_bar_x(selection, window_size),
                bar_y == layout_bar_y(selection, window_size),
                layout_fits(selection, window_size),
                x == row2_x_start + i * 60,
                color_buttons@.len() == i,
                forall|j: int|
                    0 <= j < i ==> {
                        &&& (#[trigger] color_buttons@[j]).color == color_order()[j]
                        &&& color_buttons@[j].origin.0 == row2_x_start + j * 60
                        &&& color_buttons@[j].origin.1 == row2_y
                        &&& color_buttons@[j].size == (SWATCH_SIZE, SWATCH_SIZE)
                    },
            decreases 4 - i,
        {
            color_buttons.push(ColorButton { color: color_at(i), origin: (x, row2_y), size: (SWATCH_SIZE, SWATCH_SIZE) });
            x = x + SWATCH_SIZE + SWATCH_PAD;
            i = i + 1;
        }
        x = x + SEP_WIDTH;
        let stroke_y = row2_top + (TOOLBAR_H - STROKE_DOT_AREA) / 2;
        let strokes_start = x;
        let mut stroke_buttons: Vec<StrokeButton> = Vec::with_capacity(3);
        let mut i: usize = 0;
        while i < 3
            invariant
                0 <= i <= 3,
                strokes_start == layout_strokes_x(selection, window_size),
                stroke_y == layout_row2_top(selection, window_size) + (TOOLBAR_H - STROKE_DOT_AREA) / 2,
                bar_x == layout_bar_x(selection, window_size),
                bar_y == layout_bar_y(selection, window_size),
                layout_fits(selection, window_size),
                x == strokes_start + i * 72,
                stroke_buttons@.len() == i,
                forall|j: int|
                    0 <= j < i ==> {
                        &&& (#[trigger] stroke_buttons@[j]).stroke == stroke_order()[j]
                        &&& stroke_buttons@[j].origin.0 == strokes_start + j * 72
                        &&& stroke_buttons@[j].origin.1 == stroke_y
                        &&& stroke_buttons@[j].size == (STROKE_DOT_AREA, STROKE_DOT_AREA)
                    },
            decreases 3 - i,
        {
            stroke_buttons.push(StrokeButton { stroke: stroke_at(i), origin: (x, stroke_y), size: (STROKE_DOT_AREA, STROKE_DOT_AREA) });
            x = x + STROKE_DOT_AREA + SWATCH_PAD;
            i = i + 1;
        }

        Toolbar {
            origin: (bar_x, bar_y),
            size: (bar_w, bar_h),
            tool_buttons,
            undo_button,
            redo_button,
            pin_button,
            save_button,
            color_buttons,
            stroke_buttons,
        }
    }

    /// What the cursor hits, given the active tool.
    #[verifier::loop_isolation(false)]
    pub fn hit_with_tool(&self, cursor: (i32, i32), active_tool: Tool) -> (h: ToolbarHit)
        requires
            self.buttons_fit(),
        ensures
            h == self.spec_hit(cursor, active_tool),
    {
        let mut i: usize = 0;
        assert(self.tool_buttons@.skip(0) =~= self.tool_buttons@);
        while i < self.tool_buttons.len()
            invariant
                0 <= i <= self.tool_buttons@.len(),
                self.buttons_fit(),
                first_tool_hit(self.tool_buttons@, cursor) == first_tool_hit(
                    self.tool_buttons@.skip(i as int),
                    cursor,
                ),
            decreases self.tool_buttons@.len() - i,
        {
            let btn = &self.tool_buttons[i];
            assert(self.tool_buttons@.skip(i as int)[0] == *btn);
            assert(self.tool_buttons@.skip(i as int).drop_first() =~= self.tool_buttons@.skip(
                i + 1,
            ));
            if point_in(cursor, btn.origin, btn.size) {
                return ToolbarHit::Tool(btn.tool);
            }
            i = i + 1;
        }
        if point_in(cursor, self.undo_button.origin, self.undo_button.size) {
            return ToolbarHit::Undo;
        }
        if point_in(cursor, self.redo_button.origin, self.redo_button.size) {
            return ToolbarHit::Redo;
        }
        // Pin and save stay clickable under every tool.
        if point_in(cursor, self.pin_button.origin, self.pin_button.size) {
            return ToolbarHit::Pin;
        }
        if point_in(cursor, self.save_button.origin, self.save_button.size) {
            return ToolbarHit::Save;
        }
        // Colors have no meaning for Mosaic.
        if active_tool != Tool::Mosaic {
            let mut i: usize = 0;
            assert(self.color_buttons@.skip(0) =~= self.color_buttons@);
            while i < self.color_buttons.len()
                invariant
                    0 <= i <= self.color_buttons@.len(),
                    self.buttons_fit(),
                    first_color_hit(self.color_buttons@, cursor) == first_color_hit(
                        self.color_buttons@.skip(i as int),
                        cursor,
                    ),
                decreases self.color_buttons@.len() - i,
            {
                let btn = &self.color_buttons[i];
                assert(self.color_buttons@.skip(i as int)[0] == *btn);
                assert(self.color_buttons@.skip(i as int).drop_first() =~= self.color_buttons@.skip(
                    i + 1,
                ));
                if point_in(cursor, btn.origin, btn.size) {
                    return ToolbarHit::Color(btn.color);
                }
                i = i + 1;
            }
        }
        // Strokes stay live under Mosaic, where they pick the block size.
        let mut i: usize = 0;
        assert(self.stroke_buttons@.skip(0) =~= self.stroke_buttons@);
        while i < self.stroke_buttons.len()
            invariant
                0 <= i <= self.stroke_buttons@.len(),
                self.buttons_fit(),
                first_stroke_hit(self.stroke_buttons@, cursor) == first_stroke_hit(
                    self.stroke_buttons@.skip(i as int),
                    cursor,
                ),
            decreases self.stroke_buttons@.len() - i,
        {
            let btn = &self.stroke_buttons[i];
            assert(self.stroke_buttons@.skip(i as int)[0] == *btn);
            assert(self.stroke_buttons@.skip(i as int).drop_first() =~= self.stroke_buttons@.skip(
                i + 1,
            ));
            if point_in(cursor, btn.origin, btn.size) {
                return ToolbarHit::Stroke(btn.stroke);
            }
            i = i + 1;
        }
        ToolbarHit::Nothing
    }

    /// The cursor is over the bar's background.
    pub fn contains(&self, cursor: (i32, i32)) -> (b: bool)
        requires
            box_fits(self.origin, self.size),
        ensures
            b == spec_point_in(cursor, self.origin, self.size),
    {
        point_in(cursor, self.origin, self.size)
    }
}

/// The keyboard shortcut of each tool.
pub open spec fn spec_tool_hint(tool: Tool) -> char {
    match tool {
        Tool::Move => 'M',
        Tool::Arrow => 'A',
        Tool::Rect => 'R',
        Tool::Ellipse => 'E',
        Tool::Pen => 'P',
        Tool::Text => 'T',
        Tool::Mosaic => 'B',
    }
}

/// The keyboard shortcut shown on each tool's hint badge.
pub fn tool_hint_char(tool: Tool) -> (c: char)
    ensures
        c == spec_tool_hint(tool),
{
    match tool {
        Tool::Move => 'M',
        Tool::Arrow => 'A',
        Tool::Rect => 'R',
        Tool::Ellipse => 'E',
        Tool::Pen => 'P',
        Tool::Text => 'T',
        Tool::Mosaic => 'B',
    }
}

/// The icon-font codepoint drawn for each tool.
pub fn tool_icon_codepoint(tool: Tool) -> (c: char)
    ensures
        c == (match tool {
            Tool::Move => '\u{e121}',
            Tool::Arrow => '\u{e493}',
            Tool::Rect => '\u{e167}',
            Tool::Ellipse => '\u{e076}',
            Tool::Pen => '\u{e1f9}',
            Tool::Text => '\u{e198}',
            Tool::Mosaic => '\u{e4ff}',
        }),
{
    match tool {
        Tool::Move => '\u{e121}',
        Tool::Arrow => '\u{e493}',
        Tool::Rect => '\u{e167}',
        Tool::Ellipse => '\u{e076}',
        Tool::Pen => '\u{e1f9}',
        Tool::Text => '\u{e198}',
        Tool::Mosaic => '\u{e4ff}',
    }
}


/// (xx, yy) lies in the `rw` by `rh` box at (x, y).
pub open spec fn in_box(xx: int, yy: int, x: int, y: int, rw: int, rh: int) -> bool {
    x <= xx < x + rw && y <= yy < y + rh
}

/// The buffer after filling a box: box pixels on the canvas take `color`,
/// the rest keep their value.
pub open spec fn filled(old: Seq<u32>, new: Seq<u32>, w: u32, h: u32, x: int, y: int, rw: int, rh: int, color: u32) -> bool {
    &&& new.len() == old.len()
    &&& forall|xx: int, yy: int|
        0 <= xx < w && 0 <= yy < h ==> #[trigger] new[idx(xx, yy, w as int)] == if in_box(
            xx,
            yy,
            x,
            y,
            rw,
            rh,
        ) && on_canvas(xx, yy, w, h) {
            color
        } else {
            old[idx(xx, yy, w as int)]
        }
}

/// Fill the `rw` by `rh` box at (x, y) with `color`, clipped to the canvas.
pub fn fill_rect(buf: &mut [u32], w: u32, h: u32, x: i32, y: i32, rw: i32, rh: i32, color: u32)
    requires
        buf_ok(old(buf)@.len() as int, w, h),
        rw > 0 ==> in_i32(x + rw),
        rh > 0 ==> in_i32(y + rh),
    ensures
        filled(old(buf)@, final(buf)@, w, h, x as int, y as int, rw as int, rh as int, color),
{
    let ghost orig = buf@;
    let mut dy: i32 = 0;
    while dy < rh
        invariant
            0 <= dy <= rh || (rh <= 0 && dy == 0),
            buf_ok(orig.len() as int, w, h),
            rw > 0 ==> in_i32(x + rw),
            rh > 0 ==> in_i32(y + rh),
            filled(orig, buf@, w, h, x as int, y as int, rw as int, dy as int, color),
        decreases rh - dy,
    {
        let mut dx: i32 = 0;
        while dx < rw
            invariant
                0 <= dy < rh,
                0 <= dx <= rw || (rw <= 0 && dx == 0),
                buf_ok(orig.len() as int, w, h),
                rw > 0 ==> in_i32(x + rw),
                rh > 0 ==> in_i32(y + rh),
                buf@.len() == orig.len(),
                forall|xx: int, yy: int|
                    0 <= xx < w && 0 <= yy < h ==> #[trigger] buf@[idx(xx, yy, w as int)] == if (
                    in_box(xx, yy, x as int, y as int, rw as int, dy as int) || (yy == y + dy
                        && x <= xx < x + dx)) && on_canvas(xx, yy, w, h) {
                        color
                    } else {
                        orig[idx(xx, yy, w as int)]
                    },
            decreases rw - dx,
        {
            let ghost before = buf@;
            put(buf, w, h, x + dx, y + dy, color);
            proof {
                lemma_put_effect(before, buf@, w, h, (x + dx) as int, (y + dy) as int, color);
            }
            dx = dx + 1;
        }
        dy = dy + 1;
    }
}


/// Side of a hint badge: ten UI units, at least 20 pixels.
pub const HINT_BADGE_SIZE: i32 = 30;

/// Width of the strokes a hint letter is drawn with.
pub const GLYPH_STROKE: i32 = 2;

/// Padding between a hint badge's edge and its letter.
pub const GLYPH_PAD: i32 = 4;

/// One stroke of a hint letter: a filled bar, or a line `GLYPH_STROKE`
/// pixels wide between two points.
#[derive(Debug, Clone, Copy, PartialEq, Eq, Structural)]
pub enum GlyphStroke {
    Bar { x: i32, y: i32, w: i32, h: i32 },
    Line { x0: i32, y0: i32, x1: i32, y1: i32 },
}

pub open spec fn bar(x: int, y: int, w: int, h: int) -> GlyphStroke {
    GlyphStroke::Bar { x: x as i32, y: y as i32, w: w as i32, h: h as i32 }
}

pub open spec fn line(x0: int, y0: int, x1: int, y1: int) -> GlyphStroke {
    GlyphStroke::Line { x0: x0 as i32, y0: y0 as i32, x1: x1 as i32, y1: y1 as i32 }
}

/// The strokes of the hint letter `label` in the `cw` by `ch` box at
/// (x, y): the tool letters M, A, R, E, P, T, B and the digits 1 to 4;
/// nothing for any other label.
pub open spec fn glyph_strokes(x: int, y: int, cw: int, ch: int, label: char) -> Seq<GlyphStroke> {
    let s = GLYPH_STROKE as int;
    if label == 'M' {
        seq![bar(x, y, s, ch), bar(x + cw - s, y, s, ch), line(x, y, x + cw / 2, y + ch / 2), line(x + cw / 2, y + ch / 2, x + cw, y)]
    } else if label == 'A' {
        seq![line(x + cw / 2, y, x, y + ch), line(x + cw / 2, y, x + cw, y + ch), bar(x + cw / 4, y + ch * 2 / 3, cw / 2, s)]
    } else if label == 'R' {
        seq![bar(x, y, s, ch), bar(x, y, cw, s), bar(x + cw - s, y, s, ch / 2), bar(x, y + ch / 2 - s / 2, cw, s), line(x + cw / 2, y + ch / 2, x + cw, y + ch)]
    } else if label == 'E' {
        seq![bar(x, y, s, ch), bar(x, y, cw, s), bar(x, y + ch / 2 - s / 2, cw * 3 / 4, s), bar(x, y + ch - s, cw, s)]
    } else if label == 'P' {
        seq![bar(x, y, s, ch), bar(x, y, cw, s), bar(x + cw - s, y, s, ch / 2), bar(x, y + ch / 2 - s / 2, cw, s)]
    } else if label == 'T' {
        seq![bar(x, y, cw, s), bar(x + cw / 2 - s / 2, y, s, ch)]
    } else if label == 'B' {
        seq![bar(x, y, s, ch), bar(x, y, cw, s), bar(x + cw - s, y, s, ch / 2), bar(x, y + ch / 2 - s / 2, cw, s), bar(x + cw - s, y + ch / 2, s, ch / 2), bar(x, y + ch - s, cw, s)]
    } else if label == '1' {
        seq![bar(x + cw / 2 - s / 2, y, s, ch), bar(x + cw / 4, y + ch - s, cw / 2, s), line(x + cw / 4, y + ch / 4, x + cw / 2, y)]
    } else if label == '2' {
        seq![bar(x, y, cw, s), bar(x + cw - s, y, s, ch / 2), bar(x, y + ch / 2 - s / 2, cw, s), bar(x, y + ch / 2, s, ch / 2), bar(x, y + ch - s, cw, s)]
    } else if label == '3' {
        seq![bar(x, y, cw, s), bar(x + cw - s, y, s, ch), bar(x + cw / 4, y + ch / 2 - s / 2, cw * 3 / 4, s), bar(x, y + ch - s, cw, s)]
    } else if label == '4' {
        seq![bar(x, y, s, ch / 2 + s), bar(x + cw - s, y, s, ch), bar(x, y + ch / 2 - s / 2, cw, s)]
    } else {
        Seq::empty()
    }
}

/// A badge at `origin` of `size` has room for its letter, and its
/// arithmetic stays in range.
pub open spec fn badge_fits(origin: (i32, i32), size: (i32, i32)) -> bool {
    &&& origin.0 + size.0 <= i32::MAX && origin.1 + size.1 <= i32::MAX
    &&& 2 * GLYPH_PAD <= size.0 <= 0x10_0000 && 2 * GLYPH_PAD <= size.1 <= 0x10_0000
}

fn glyph_bar(x: i32, y: i32, w: i32, h: i32) -> (g: GlyphStroke)
    ensures
        g == bar(x as int, y as int, w as int, h as int),
{
    GlyphStroke::Bar { x, y, w, h }
}

fn glyph_line(x0: i32, y0: i32, x1: i32, y1: i32) -> (g: GlyphStroke)
    ensures
        g == line(x0 as int, y0 as int, x1 as int, y1 as int),
{
    GlyphStroke::Line { x0, y0, x1, y1 }
}

/// The strokes of a hint badge's letter, drawn inside the badge's padding.
pub fn hint_glyph_strokes(badge_origin: (i32, i32), badge_size: (i32, i32), label: char) -> (r: Vec<GlyphStroke>)
    requires
        badge_fits(badge_origin, badge_size),
    ensures
        r@ == glyph_strokes(
            badge_origin.0 + GLYPH_PAD,
            badge_origin.1 + GLYPH_PAD,
            badge_size.0 - 2 * GLYPH_PAD,
            badge_size.1 - 2 * GLYPH_PAD,
            label,
        ),
{
    let pad = GLYPH_PAD;
    let cw = badge_size.0 - pad * 2;
    let ch = badge_size.1 - pad * 2;
    let x = badge_origin.0 + pad;
    let y = badge_origin.1 + pad;
    let s = GLYPH_STROKE;
    let mut out: Vec<GlyphStroke> = Vec::new();
    match label {
        'M' => {
            out.push(glyph_bar(x, y, s, ch));
            out.push(glyph_bar(x + cw - s, y, s, ch));
            out.push(glyph_line(x, y, x + cw / 2, y + ch / 2));
            out.push(glyph_line(x + cw / 2, y + ch / 2, x + cw, y));
        },
        'A' => {
            out.push(glyph_line(x + cw / 2, y, x, y + ch));
            out.push(glyph_line(x + cw / 2, y, x + cw, y + ch));
            out.push(glyph_bar(x + cw / 4, y + ch * 2 / 3, cw / 2, s));
        },
        'R' => {
            out.push(glyph_bar(x, y, s, ch));
            out.push(glyph_bar(x, y, cw, s));
            out.push(glyph_bar(x + cw - s, y, s, ch / 2));
            out.push(glyph_bar(x, y + ch / 2 - s / 2, cw, s));
            out.push(glyph_line(x + cw / 2, y + ch / 2, x + cw, y + ch));
        },
        'E' => {
            out.push(glyph_bar(x, y, s, ch));
            out.push(glyph_bar(x, y, cw, s));
            out.push(glyph_bar(x, y + ch / 2 - s / 2, cw * 3 / 4, s));
            out.push(glyph_bar(x, y + ch - s, cw, s));
        },
        'P' => {
            out.push(glyph_bar(x, y, s, ch));
            out.push(glyph_bar(x, y, cw, s));
            out.push(glyph_bar(x + cw - s, y, s, ch / 2));
            out.push(glyph_bar(x, y + ch / 2 - s / 2, cw, s));
        },
        'T' => {
            out.push(glyph_bar(x, y, cw, s));
            out.push(glyph_bar(x + cw / 2 - s / 2, y, s, ch));
        },
        'B' => {
            out.push(glyph_bar(x, y, s, ch));
            out.push(glyph_bar(x, y, cw, s));
            out.push(glyph_bar(x + cw - s, y, s, ch / 2));
            out.push(glyph_bar(x, y + ch / 2 - s / 2, cw, s));
            out.push(glyph_bar(x + cw - s, y + ch / 2, s, ch / 2));
            out.push(glyph_bar(x, y + ch - s, cw, s));
        },
        '1' => {
            out.push(glyph_bar(x + cw / 2 - s / 2, y, s, ch));
            out.push(glyph_bar(x + cw / 4, y + ch - s, cw / 2, s));
            out.push(glyph_line(x + cw / 4, y + ch / 4, x + cw / 2, y));
        },
        '2' => {
            out.push(glyph_bar(x, y, cw, s));
            out.push(glyph_bar(x + cw - s, y, s, ch / 2));
            out.push(glyph_bar(x, y + ch / 2 - s / 2, cw, s));
            out.push(glyph_bar(x, y + ch / 2, s, ch / 2));
            out.push(glyph_bar(x, y + ch - s, cw, s));
        },
        '3' => {
            out.push(glyph_bar(x, y, cw, s));
            out.push(glyph_bar(x + cw - s, y, s, ch));
            out.push(glyph_bar(x + cw / 4, y + ch / 2 - s / 2, cw * 3 / 4, s));
            out.push(glyph_bar(x, y + ch - s, cw, s));
        },
        '4' => {
            out.push(glyph_bar(x, y, s, ch / 2 + s));
            out.push(glyph_bar(x + cw - s, y, s, ch));
            out.push(glyph_bar(x, y + ch / 2 - s / 2, cw, s));
        },
        _ => {},
    }
    assert(out@ =~= glyph_strokes(x as int, y as int, cw as int, ch as int, label));
    out
}


/// The digit key of the `i`-th color swatch.
pub open spec fn color_digit(i: int) -> char {
    if i == 0 {
        '1'
    } else if i == 1 {
        '2'
    } else if i == 2 {
        '3'
    } else {
        '4'
    }
}

fn color_digit_at(i: usize) -> (c: char)
    ensures
        c == color_digit(i as int),
{
    if i == 0 {
        '1'
    } else if i == 1 {
        '2'
    } else if i == 2 {
        '3'
    } else {
        '4'
    }
}

/// A shortcut badge: its top-left corner and the key it shows.
#[derive(Debug, Clone, Copy, PartialEq, Eq, Structural)]
pub struct HintBadge {
    pub x: i32,
    pub y: i32,
    pub label: char,
}

impl HintBadge {
    pub open spec fn x_y(self) -> (i32, i32) {
        (self.x, self.y)
    }
}

/// The badge at the bottom-right corner of a button.
pub open spec fn badge_at(origin: (i32, i32), size: (i32, i32), label: char) -> HintBadge {
    HintBadge {
        x: (origin.0 + size.0 - HINT_BADGE_SIZE) as i32,
        y: (origin.1 + size.1 - HINT_BADGE_SIZE) as i32,
        label,
    }
}

/// The badge of a button stays where its letter can be laid out.
pub open spec fn badge_spot_fits(origin: (i32, i32), size: (i32, i32)) -> bool {
    &&& i32::MIN + HINT_BADGE_SIZE <= origin.0 + size.0 <= i32::MAX
    &&& i32::MIN + HINT_BADGE_SIZE <= origin.1 + size.1 <= i32::MAX
}

fn badge_for(origin: (i32, i32), size: (i32, i32), label: char) -> (b: HintBadge)
    requires
        badge_spot_fits(origin, size),
    ensures
        b == badge_at(origin, size, label),
        badge_fits((b.x, b.y), (HINT_BADGE_SIZE, HINT_BADGE_SIZE)),
{
    let x = origin.0 as i64 + size.0 as i64 - HINT_BADGE_SIZE as i64;
    let y = origin.1 as i64 + size.1 as i64 - HINT_BADGE_SIZE as i64;
    HintBadge { x: x as i32, y: y as i32, label }
}

impl Toolbar {
    /// Every tool button and color swatch has room for its badge.
    pub open spec fn badges_fit(&self) -> bool {
        &&& forall|i: int|
            0 <= i < self.tool_buttons@.len() ==> badge_spot_fits(
                (#[trigger] self.tool_buttons@[i]).origin,
                self.tool_buttons@[i].size,
            )
        &&& forall|i: int|
            0 <= i < self.color_buttons@.len() ==> badge_spot_fits(
                (#[trigger] self.color_buttons@[i]).origin,
                self.color_buttons@[i].size,
            )
    }

    /// The shortcut badges: one per tool button with the tool's letter,
    /// then, unless Mosaic is active, one per color swatch with its digit.
    pub open spec fn spec_hint_badges(&self, current_tool: Tool) -> Seq<HintBadge> {
        let tools = Seq::new(
            self.tool_buttons@.len(),
            |i: int|
                badge_at(
                    self.tool_buttons@[i].origin,
                    self.tool_buttons@[i].size,
                    spec_tool_hint(self.tool_buttons@[i].tool),
                ),
        );
        let colors = if current_tool != Tool::Mosaic {
            Seq::new(
                self.color_buttons@.len(),
                |i: int| badge_at(self.color_buttons@[i].origin, self.color_buttons@[i].size, color_digit(i)),
            )
        } else {
            Seq::empty()
        };
        tools + colors
    }

    /// The shortcut badges shown while hints are on.
    pub fn hint_badges(&self, current_tool: Tool) -> (r: Vec<HintBadge>)
        requires
            self.badges_fit(),
        ensures
            r@ == self.spec_hint_badges(current_tool),
            forall|i: int| 0 <= i < r@.len() ==> badge_fits((#[trigger] r@[i]).x_y(), (HINT_BADGE_SIZE, HINT_BADGE_SIZE)),
    {
        let mut out: Vec<HintBadge> = Vec::new();
        let nt = self.tool_buttons.len();
        let mut i: usize = 0;
        while i < nt
            invariant
                self.badges_fit(),
                nt == self.tool_buttons@.len(),
                0 <= i <= nt,
                out@.len() == i,
                forall|k: int| 0 <= k < i ==> #[trigger] out@[k] == badge_at(
                    self.tool_buttons@[k].origin,
                    self.tool_buttons@[k].size,
                    spec_tool_hint(self.tool_buttons@[k].tool),
                ),
                forall|k: int| 0 <= k < out@.len() ==> badge_fits((#[trigger] out@[k]).x_y(), (HINT_BADGE_SIZE, HINT_BADGE_SIZE)),
            decreases nt - i,
        {
            let b = &self.tool_buttons[i];
            assert(badge_spot_fits(self.tool_buttons@[i as int].origin, self.tool_buttons@[i as int].size));
            out.push(badge_for(b.origin, b.size, tool_hint_char(b.tool)));
            i = i + 1;
        }
        let ghost tools = out@;
        let ghost spec_tools = Seq::new(
            self.tool_buttons@.len(),
            |k: int|
                badge_at(
                    self.tool_buttons@[k].origin,
                    self.tool_buttons@[k].size,
                    spec_tool_hint(self.tool_buttons@[k].tool),
                ),
        );
        assert(tools =~= spec_tools);
        if current_tool != Tool::Mosaic {
            let nc = self.color_buttons.len();
            let mut j: usize = 0;
            while j < nc
                invariant
                    self.badges_fit(),
                    nc == self.color_buttons@.len(),
                    0 <= j <= nc,
                    out@.len() == tools.len() + j,
                    out@.subrange(0, tools.len() as int) == tools,
                    forall|k: int| 0 <= k < j ==> #[trigger] out@[tools.len() + k] == badge_at(
                        self.color_buttons@[k].origin,
                        self.color_buttons@[k].size,
                        color_digit(k),
                    ),
                    forall|k: int| 0 <= k < out@.len() ==> badge_fits((#[trigger] out@[k]).x_y(), (HINT_BADGE_SIZE, HINT_BADGE_SIZE)),
                decreases nc - j,
            {
                let b = &self.color_buttons[j];
                assert(badge_spot_fits(self.color_buttons@[j as int].origin, self.color_buttons@[j as int].size));
                let ghost before = out@;
                out.push(badge_for(b.origin, b.size, color_digit_at(j)));
                assert(out@.subrange(0, tools.len() as int) =~= before.subrange(0, tools.len() as int));
                j = j + 1;
            }
            let ghost spec_colors = Seq::new(
                self.color_buttons@.len(),
                |k: int| badge_at(self.color_buttons@[k].origin, self.color_buttons@[k].size, color_digit(k)),
            );
            assert forall|k: int| 0 <= k < out@.len() implies #[trigger] out@[k] == (spec_tools + spec_colors)[k] by {
                if k < tools.len() {
                    assert(out@[k] == out@.subrange(0, tools.len() as int)[k]);
                } else {
                    let m = k - tools.len();
                    assert(out@[tools.len() + m] == spec_colors[m]);
                }
            }
        }
        assert(out@ =~= self.spec_hint_badges(current_tool));
        out
    }
}


/// A toolbar laid out for a selection and window within the overlay's
/// limits has room for every badge.
pub proof fn lemma_layout_badges_fit(t: &Toolbar, sel: Rect, ws: (u32, u32))
    requires
        is_layout(t, sel, ws),
        -0x1000_0000 <= sel.x <= 0x1000_0000 && -0x1000_0000 <= sel.y <= 0x1000_0000,
        0 <= sel.w <= 0x2000_0000 && 0 <= sel.h <= 0x2000_0000,
        ws.0 <= i32::MAX && ws.1 <= i32::MAX,
    ensures
        t.badges_fit(),
{
    let bx = layout_bar_x(sel, ws);
    let by = layout_bar_y(sel, ws);
    assert(4 <= bx && bx + BAR_W <= i32::MAX);
    assert(-0x4000_0000 <= by && by + BAR_H <= i32::MAX);
    assert forall|i: int| 0 <= i < t.tool_buttons@.len() implies badge_spot_fits(
        (#[trigger] t.tool_buttons@[i]).origin,
        t.tool_buttons@[i].size,
    ) by {
        assert(0 <= i < 7);
    }
    assert forall|i: int| 0 <= i < t.color_buttons@.len() implies badge_spot_fits(
        (#[trigger] t.color_buttons@[i]).origin,
        t.color_buttons@[i].size,
    ) by {
        assert(0 <= i < 4);
    }
}


/// Color of an icon that can be used.
pub const ICON_ENABLED: u32 = 0x00FF_FFFF;

/// Color of an icon that cannot be used right now.
pub const ICON_DISABLED: u32 = 0x0088_8888;

/// The state-dependent parts of the toolbar's look.
pub struct ToolbarLook {
    /// Per tool button: drawn on the highlight pill (the active tool).
    pub tool_highlight: Vec<bool>,
    pub undo_color: u32,
    pub redo_color: u32,
    /// The color swatches are faded and take no clicks (under Mosaic).
    pub colors_disabled: bool,
    /// Per color swatch: ringed as the current color.
    pub color_ring: Vec<bool>,
    /// Per stroke dot: ringed as the current stroke.
    pub stroke_ring: Vec<bool>,
}

impl Toolbar {
    /// How the toolbar looks for the active tool and style: the active tool
    /// highlighted; undo and redo dimmed when there is nothing to undo or
    /// redo; under Mosaic the swatches disabled and unringed; the current
    /// color and stroke ringed.
    pub fn look(&self, current_tool: Tool, style: AnnotationStyle, can_undo: bool, can_redo: bool) -> (l: ToolbarLook)
        ensures
            l.tool_highlight@.len() == self.tool_buttons@.len(),
            forall|i: int|
                0 <= i < self.tool_buttons@.len() ==> #[trigger] l.tool_highlight@[i] == (
                self.tool_buttons@[i].tool == current_tool),
            l.undo_color == if can_undo { ICON_ENABLED } else { ICON_DISABLED },
            l.redo_color == if can_redo { ICON_ENABLED } else { ICON_DISABLED },
            l.colors_disabled == (current_tool == Tool::Mosaic),
            l.color_ring@.len() == self.color_buttons@.len(),
            forall|i: int|
                0 <= i < self.color_buttons@.len() ==> #[trigger] l.color_ring@[i] == (
                self.color_buttons@[i].color == style.color && current_tool != Tool::Mosaic),
            l.stroke_ring@.len() == self.stroke_buttons@.len(),
            forall|i: int|
                0 <= i < self.stroke_buttons@.len() ==> #[trigger] l.stroke_ring@[i] == (
                self.stroke_buttons@[i].stroke == style.stroke),
    {
        let disabled = current_tool == Tool::Mosaic;
        let mut tool_highlight: Vec<bool> = Vec::new();
        let mut i: usize = 0;
        while i < self.tool_buttons.len()
            invariant
                0 <= i <= self.tool_buttons@.len(),
                tool_highlight@.len() == i,
                forall|k: int| 0 <= k < i ==> #[trigger] tool_highlight@[k] == (self.tool_buttons@[k].tool == current_tool),
            decreases self.tool_buttons@.len() - i,
        {
            tool_highlight.push(self.tool_buttons[i].tool == current_tool);
            i = i + 1;
        }
        let mut color_ring: Vec<bool> = Vec::new();
        let mut j: usize = 0;
        while j < self.color_buttons.len()
            invariant
                0 <= j <= self.color_buttons@.len(),
                disabled == (current_tool == Tool::Mosaic),
                color_ring@.len() == j,
                forall|k: int|
                    0 <= k < j ==> #[trigger] color_ring@[k] == (self.color_buttons@[k].color == style.color
                        && current_tool != Tool::Mosaic),
            decreases self.color_buttons@.len() - j,
        {
            color_ring.push(self.color_buttons[j].color == style.color && !disabled);
            j = j + 1;
        }
        let mut stroke_ring: Vec<bool> = Vec::new();
        let mut k: usize = 0;
        while k < self.stroke_buttons.len()
            invariant
                0 <= k <= self.stroke_buttons@.len(),
                stroke_ring@.len() == k,
                forall|m: int| 0 <= m < k ==> #[trigger] stroke_ring@[m] == (self.stroke_buttons@[m].stroke == style.stroke),
            decreases self.stroke_buttons@.len() - k,
        {
            stroke_ring.push(self.stroke_buttons[k].stroke == style.stroke);
            k = k + 1;
        }
        ToolbarLook {
            tool_highlight,
            undo_color: if can_undo { ICON_ENABLED } else { ICON_DISABLED },
            redo_color: if can_redo { ICON_ENABLED } else { ICON_DISABLED },
            colors_disabled: disabled,
            color_ring,
            stroke_ring,
        }
    }
}

} // verus!
