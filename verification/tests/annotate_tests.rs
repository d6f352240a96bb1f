use quickshot::overlay::annotate::{Annotation, AnnotationStyle, Color, History, PendingDraw, Stroke, Tool};
use quickshot::overlay::state::Rect;

#[test]
fn is_drawing_variants() {
    assert!(!Tool::Move.is_drawing());
    assert!(Tool::Arrow.is_drawing());
    assert!(Tool::Rect.is_drawing());
    assert!(Tool::Ellipse.is_drawing());
    assert!(Tool::Mosaic.is_drawing());
    assert!(Tool::Pen.is_drawing());
    assert!(Tool::Text.is_drawing());
}

#[test]
fn finalize_move_returns_none() {
    let p = PendingDraw::shape(Tool::Move, AnnotationStyle::default(), (0, 0), (10, 10));
    assert!(p.finalize().is_none());
}

#[test]
fn finalize_arrow() {
    let p = PendingDraw::shape(Tool::Arrow, AnnotationStyle::default(), (10, 20), (50, 80));
    let a = p.finalize().unwrap();
    assert_eq!(
        a,
        Annotation::Arrow { from: (10, 20), to: (50, 80), style: AnnotationStyle::default() }
    );
}

#[test]
fn finalize_rect_normalizes() {
    let p = PendingDraw::shape(Tool::Rect, AnnotationStyle::default(), (80, 60), (20, 10));
    match p.finalize().unwrap() {
        Annotation::Rect { rect, .. } => {
            assert_eq!(rect, Rect { x: 20, y: 10, w: 60, h: 50 });
        }
        _ => panic!("expected Rect"),
    }
}

#[test]
fn finalize_ellipse_normalizes() {
    let p = PendingDraw::shape(Tool::Ellipse, AnnotationStyle::default(), (0, 0), (30, 40));
    match p.finalize().unwrap() {
        Annotation::Ellipse { rect, .. } => {
            assert_eq!(rect, Rect { x: 0, y: 0, w: 30, h: 40 });
        }
        _ => panic!("expected Ellipse"),
    }
}

#[test]
fn finalize_mosaic_has_block_size_8() {
    let p = PendingDraw::shape(Tool::Mosaic, AnnotationStyle::default(), (5, 5), (50, 50));
    match p.finalize().unwrap() {
        Annotation::Mosaic { rect, block_size } => {
            assert_eq!(rect, Rect { x: 5, y: 5, w: 45, h: 45 });
            assert_eq!(block_size, 8);
        }
        _ => panic!("expected Mosaic"),
    }
}

#[test]
fn pen_finalize_returns_pen_with_points() {
    let mut p = PendingDraw::pen(AnnotationStyle::default(), (10, 20));
    p.push_point((11, 21));
    p.push_point((12, 22));
    let a = p.finalize().expect("pen finalize");
    match a {
        Annotation::Pen { ref points, style } => {
            assert_eq!(points, &vec![(10, 20), (11, 21), (12, 22)]);
            assert_eq!(style, AnnotationStyle::default());
        }
        _ => panic!("expected Pen"),
    }
}

#[test]
fn pen_dedup_drops_consecutive_duplicates() {
    let mut p = PendingDraw::pen(AnnotationStyle::default(), (10, 10));
    p.push_point((10, 10));
    p.push_point((10, 11));
    p.push_point((10, 11));
    let a = p.finalize().unwrap();
    match a {
        Annotation::Pen { points, .. } => assert_eq!(points, vec![(10, 10), (10, 11)]),
        _ => panic!(),
    }
}

#[test]
fn pen_finalize_single_point_returns_none() {
    let p = PendingDraw::pen(AnnotationStyle::default(), (10, 10));
    assert!(p.finalize().is_none());
}

#[test]
fn shape_finalize_unchanged_after_enum_conversion() {
    let p = PendingDraw::shape(Tool::Rect, AnnotationStyle::default(), (5, 5), (15, 25));
    match p.finalize().unwrap() {
        Annotation::Rect { rect, .. } => {
            assert_eq!(rect, Rect { x: 5, y: 5, w: 10, h: 20 });
        }
        _ => panic!(),
    }
}

#[test]
fn history_empty() {
    let h = History::new();
    assert!(!h.can_undo());
    assert!(!h.can_redo());
    assert_eq!(h.current().len(), 0);
}

#[test]
fn history_push() {
    let mut h = History::new();
    h.push(Annotation::Arrow { from: (0, 0), to: (10, 10), style: AnnotationStyle::default() });
    assert!(h.can_undo());
    assert!(!h.can_redo());
    assert_eq!(h.current().len(), 1);
}

#[test]
fn history_undo_moves_to_redo() {
    let mut h = History::new();
    h.push(Annotation::Rect {
        rect: Rect { x: 0, y: 0, w: 10, h: 10 },
        style: AnnotationStyle::default(),
    });
    assert!(h.undo());
    assert!(!h.can_undo());
    assert!(h.can_redo());
    assert_eq!(h.current().len(), 0);
}

#[test]
fn history_redo_restores() {
    let mut h = History::new();
    let a = Annotation::Ellipse {
        rect: Rect { x: 5, y: 5, w: 20, h: 20 },
        style: AnnotationStyle::default(),
    };
    h.push(a.clone());
    h.undo();
    assert!(h.redo());
    assert_eq!(h.current(), &[a]);
    assert!(!h.can_redo());
}

#[test]
fn push_after_undo_clears_redo() {
    let mut h = History::new();
    h.push(Annotation::Arrow { from: (0, 0), to: (5, 5), style: AnnotationStyle::default() });
    h.undo();
    assert!(h.can_redo());
    h.push(Annotation::Arrow { from: (10, 10), to: (20, 20), style: AnnotationStyle::default() });
    assert!(!h.can_redo());
    assert_eq!(h.current().len(), 1);
}

#[test]
fn undo_empty_returns_false() {
    let mut h = History::new();
    assert!(!h.undo());
    assert!(!h.redo());
}

#[test]
fn multiple_undo_redo() {
    let mut h = History::new();
    let a = Annotation::Arrow { from: (0, 0), to: (1, 1), style: AnnotationStyle::default() };
    let b = Annotation::Arrow { from: (2, 2), to: (3, 3), style: AnnotationStyle::default() };
    let c = Annotation::Arrow { from: (4, 4), to: (5, 5), style: AnnotationStyle::default() };
    h.push(a.clone());
    h.push(b.clone());
    h.push(c);
    assert_eq!(h.current().len(), 3);
    h.undo();
    h.undo();
    assert_eq!(h.current(), &[a.clone()]);
    h.redo();
    assert_eq!(h.current(), &[a, b]);
}

#[test]
fn color_argb_values() {
    assert_eq!(Color::Red.argb(), 0x00_FF_3B_30);
    assert_eq!(Color::Yellow.argb(), 0x00_FF_CC_00);
    assert_eq!(Color::Green.argb(), 0x00_34_C7_59);
    assert_eq!(Color::Blue.argb(), 0x00_00_7A_FF);
}

#[test]
fn color_rgba_values() {
    assert_eq!(Color::Red.rgba(), [0xFF, 0x3B, 0x30, 0xFF]);
    assert_eq!(Color::Blue.rgba(), [0x00, 0x7A, 0xFF, 0xFF]);
}

#[test]
fn stroke_px_values() {
    assert_eq!(Stroke::Thin.px(), 2);
    assert_eq!(Stroke::Medium.px(), 4);
    assert_eq!(Stroke::Thick.px(), 6);
}

#[test]
fn stroke_step() {
    assert_eq!(Stroke::Thin.step_up(), Stroke::Medium);
    assert_eq!(Stroke::Medium.step_up(), Stroke::Thick);
    assert_eq!(Stroke::Thick.step_up(), Stroke::Thick);
    assert_eq!(Stroke::Thick.step_down(), Stroke::Medium);
    assert_eq!(Stroke::Medium.step_down(), Stroke::Thin);
    assert_eq!(Stroke::Thin.step_down(), Stroke::Thin);
}

#[test]
fn annotation_style_default_is_red_medium() {
    let s = AnnotationStyle::default();
    assert_eq!(s.color, Color::Red);
    assert_eq!(s.stroke, Stroke::Medium);
}

#[test]
fn text_annotation_round_trip() {
    let mut h = History::new();
    let a = Annotation::Text {
        origin: (10, 20),
        content: "hi".to_string(),
        style: AnnotationStyle::default(),
    };
    h.push(a.clone());
    assert_eq!(h.current(), &[a]);
}

#[test]
fn undo_all_then_redo_all_restores_history() {
    let mut h = History::new();
    let items: Vec<Annotation> = (0..4)
        .map(|i| Annotation::Arrow { from: (i, i), to: (i + 1, i + 1), style: AnnotationStyle::default() })
        .collect();
    for a in &items {
        h.push(a.clone());
    }
    for _ in 0..4 {
        assert!(h.undo());
    }
    assert!(!h.undo());
    for _ in 0..4 {
        assert!(h.redo());
    }
    assert!(!h.redo());
    assert_eq!(h.current(), items.as_slice());
}

#[test]
fn pen_extend_moves_shape_anchor() {
    let mut p = PendingDraw::shape(Tool::Arrow, AnnotationStyle::default(), (1, 1), (1, 1));
    p.extend_to((9, 4));
    assert_eq!(
        p.finalize(),
        Some(Annotation::Arrow { from: (1, 1), to: (9, 4), style: AnnotationStyle::default() })
    );
}

#[test]
fn clone_keeps_pen_points() {
    let a = Annotation::Pen { points: vec![(1, 2), (3, 4)], style: AnnotationStyle::default() };
    assert_eq!(a.clone(), a);
}
