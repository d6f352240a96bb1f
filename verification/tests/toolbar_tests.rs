use quickshot::overlay::annotate::{AnnotationStyle, Color, Stroke, Tool};
use quickshot::overlay::state::Rect;
use quickshot::overlay::toolbar::{
    hint_glyph_strokes, tool_icon_codepoint, GlyphStroke, HintBadge, Toolbar, ToolbarHit, HINT_BADGE_SIZE, ICON_DISABLED,
    ICON_ENABLED, ICON_SIZE,
};

fn sel() -> Rect { Rect { x: 200, y: 200, w: 400, h: 300 } }

#[test]
fn layout_below_default() {
    let t = Toolbar::layout(sel(), (1440, 900));
    assert!(t.origin.1 > sel().y + sel().h);
    assert_eq!(t.tool_buttons.len(), 7);
    assert_eq!(t.tool_buttons[0].tool, Tool::Move);
    assert_eq!(t.tool_buttons[6].tool, Tool::Mosaic);
}

#[test]
fn layout_flips_above_when_low() {
    let s = Rect { x: 100, y: 800, w: 300, h: 90 };
    let t = Toolbar::layout(s, (1440, 900));
    assert!(t.origin.1 < s.y);
}

#[test]
fn hit_tool_button() {
    let t = Toolbar::layout(sel(), (1440, 900));
    let btn = &t.tool_buttons[1];
    let c = (btn.origin.0 + 5, btn.origin.1 + 5);
    assert_eq!(t.hit_with_tool(c, Tool::Move), ToolbarHit::Tool(Tool::Arrow));
}

#[test]
fn hit_undo() {
    let t = Toolbar::layout(sel(), (1440, 900));
    let u = &t.undo_button;
    let c = (u.origin.0 + 3, u.origin.1 + 3);
    assert_eq!(t.hit_with_tool(c, Tool::Move), ToolbarHit::Undo);
}

#[test]
fn hit_none_outside() {
    let t = Toolbar::layout(sel(), (1440, 900));
    assert_eq!(t.hit_with_tool((10, 10), Tool::Move), ToolbarHit::Nothing);
}

#[test]
fn contains_inside_bar() {
    let t = Toolbar::layout(sel(), (1440, 900));
    let c = (t.origin.0 + t.size.0 / 2, t.origin.1 + t.size.1 / 2);
    assert!(t.contains(c));
    assert!(!t.contains((10, 10)));
}

#[test]
fn tool_order_includes_pen_and_text() {
    let t = Toolbar::layout(sel(), (1440, 900));
    let tools: Vec<Tool> = t.tool_buttons.iter().map(|b| b.tool).collect();
    assert_eq!(tools, vec![
        Tool::Move, Tool::Arrow, Tool::Rect, Tool::Ellipse,
        Tool::Pen, Tool::Text, Tool::Mosaic,
    ]);
}

#[test]
fn layout_has_color_and_stroke_buttons() {
    let t = Toolbar::layout(sel(), (1440, 900));
    assert_eq!(t.color_buttons.len(), 4);
    assert_eq!(t.stroke_buttons.len(), 3);
    // Row 2 sits below row 1.
    let row1_y = t.tool_buttons[0].origin.1;
    let row2_y = t.color_buttons[0].origin.1;
    assert!(row2_y > row1_y, "row 2 should sit below row 1");
}

#[test]
fn hit_returns_color_and_stroke() {
    let t = Toolbar::layout(sel(), (1440, 900));
    let yellow = &t.color_buttons[1];
    let c = (yellow.origin.0 + 4, yellow.origin.1 + 4);
    assert_eq!(t.hit_with_tool(c, Tool::Arrow), ToolbarHit::Color(Color::Yellow));
    let thick = &t.stroke_buttons[2];
    let s = (thick.origin.0 + 4, thick.origin.1 + 4);
    assert_eq!(t.hit_with_tool(s, Tool::Arrow), ToolbarHit::Stroke(Stroke::Thick));
}

#[test]
fn hit_row2_color_returns_none_when_mosaic_active() {
    let t = Toolbar::layout(sel(), (1440, 900));
    let yellow = &t.color_buttons[1];
    let c = (yellow.origin.0 + 4, yellow.origin.1 + 4);
    assert_eq!(t.hit_with_tool(c, Tool::Mosaic), ToolbarHit::Nothing);
}

#[test]
fn hit_stroke_under_mosaic_returns_stroke() {
    // Stroke section is interactive under Mosaic (controls block size).
    let t = Toolbar::layout(sel(), (1440, 900));
    let thick = &t.stroke_buttons[2];
    let s = (thick.origin.0 + 4, thick.origin.1 + 4);
    assert_eq!(t.hit_with_tool(s, Tool::Mosaic), ToolbarHit::Stroke(Stroke::Thick));
}

#[test]
fn toolbar_has_pin_button() {
    let t = Toolbar::layout(sel(), (1440, 900));
    // Pin button sits to the right of redo on row 1.
    assert!(t.pin_button.origin.0 > t.redo_button.origin.0);
    // Same vertical center as the rest of row 1.
    assert_eq!(t.pin_button.origin.1, t.redo_button.origin.1);
    // Same size as other icons.
    assert_eq!(t.pin_button.size, (ICON_SIZE, ICON_SIZE));
}

#[test]
fn hit_pin_button() {
    let t = Toolbar::layout(sel(), (1440, 900));
    let p = &t.pin_button;
    let c = (p.origin.0 + 5, p.origin.1 + 5);
    assert_eq!(t.hit_with_tool(c, Tool::Move), ToolbarHit::Pin);
}

#[test]
fn hit_pin_button_works_under_mosaic() {
    // Row 2 is greyed under Mosaic, but row 1 (incl. pin) stays clickable.
    let t = Toolbar::layout(sel(), (1440, 900));
    let p = &t.pin_button;
    let c = (p.origin.0 + 5, p.origin.1 + 5);
    assert_eq!(t.hit_with_tool(c, Tool::Mosaic), ToolbarHit::Pin);
}

#[test]
fn toolbar_has_save_button() {
    let t = Toolbar::layout(sel(), (1440, 900));
    // Save sits to the right of pin on row 1.
    assert!(t.save_button.origin.0 > t.pin_button.origin.0);
    assert_eq!(t.save_button.origin.1, t.pin_button.origin.1);
    assert_eq!(t.save_button.size, (ICON_SIZE, ICON_SIZE));
}

#[test]
fn hit_save_button() {
    let t = Toolbar::layout(sel(), (1440, 900));
    let s = &t.save_button;
    let c = (s.origin.0 + 5, s.origin.1 + 5);
    assert_eq!(t.hit_with_tool(c, Tool::Move), ToolbarHit::Save);
}

#[test]
fn hit_save_button_works_under_mosaic() {
    // Save (row 1) stays clickable even under Mosaic.
    let t = Toolbar::layout(sel(), (1440, 900));
    let s = &t.save_button;
    let c = (s.origin.0 + 5, s.origin.1 + 5);
    assert_eq!(t.hit_with_tool(c, Tool::Mosaic), ToolbarHit::Save);
}

#[test]
fn hint_glyph_t_is_a_bar_and_a_stem() {
    let g = hint_glyph_strokes((0, 0), (30, 30), 'T');
    assert_eq!(
        g,
        vec![GlyphStroke::Bar { x: 4, y: 4, w: 22, h: 2 }, GlyphStroke::Bar { x: 14, y: 4, w: 2, h: 22 }]
    );
}

#[test]
fn hint_glyph_a_has_two_legs_and_a_crossbar() {
    let g = hint_glyph_strokes((10, 20), (30, 30), 'A');
    assert_eq!(
        g,
        vec![
            GlyphStroke::Line { x0: 25, y0: 24, x1: 14, y1: 46 },
            GlyphStroke::Line { x0: 25, y0: 24, x1: 36, y1: 46 },
            GlyphStroke::Bar { x: 19, y: 38, w: 11, h: 2 },
        ]
    );
}

#[test]
fn hint_glyph_unknown_label_draws_nothing() {
    assert!(hint_glyph_strokes((0, 0), (30, 30), 'Z').is_empty());
    assert_eq!(hint_glyph_strokes((0, 0), (30, 30), 'B').len(), 6);
}

#[test]
fn hint_badges_cover_tools_then_colors_unless_mosaic() {
    let t = Toolbar::layout(sel(), (1440, 900));
    let badges = t.hint_badges(Tool::Arrow);
    assert_eq!(badges.len(), 11);
    let b0 = &t.tool_buttons[0];
    assert_eq!(
        badges[0],
        HintBadge {
            x: b0.origin.0 + b0.size.0 - HINT_BADGE_SIZE,
            y: b0.origin.1 + b0.size.1 - HINT_BADGE_SIZE,
            label: 'M'
        }
    );
    let labels: Vec<char> = badges.iter().map(|b| b.label).collect();
    assert_eq!(labels, vec!['M', 'A', 'R', 'E', 'P', 'T', 'B', '1', '2', '3', '4']);
    assert_eq!(t.hint_badges(Tool::Mosaic).len(), 7);
}

#[test]
fn look_highlights_the_active_tool_and_style() {
    let t = Toolbar::layout(sel(), (1440, 900));
    let style = AnnotationStyle { color: Color::Green, stroke: Stroke::Thin };
    let l = t.look(Tool::Rect, style, true, false);
    assert_eq!(l.tool_highlight, vec![false, false, true, false, false, false, false]);
    assert_eq!(l.undo_color, ICON_ENABLED);
    assert_eq!(l.redo_color, ICON_DISABLED);
    assert!(!l.colors_disabled);
    assert_eq!(l.color_ring, vec![false, false, true, false]);
    assert_eq!(l.stroke_ring, vec![true, false, false]);
    let m = t.look(Tool::Mosaic, style, false, true);
    assert!(m.colors_disabled);
    assert_eq!(m.color_ring, vec![false, false, false, false]);
    assert_eq!(m.stroke_ring, vec![true, false, false]);
}

#[test]
fn tool_icons_are_glyphs_of_the_bundled_subset() {
    let subset = ['\u{E121}', '\u{E493}', '\u{E167}', '\u{E076}', '\u{E1F9}', '\u{E198}', '\u{E4FF}'];
    let tools = [Tool::Move, Tool::Arrow, Tool::Rect, Tool::Ellipse, Tool::Pen, Tool::Text, Tool::Mosaic];
    for t in tools {
        assert!(subset.contains(&tool_icon_codepoint(t)), "{t:?}");
    }
    assert_eq!(tool_icon_codepoint(Tool::Arrow), '\u{E493}');
}
