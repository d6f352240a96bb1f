//! Annotation types, the in-flight drawing, and the undo/redo history.

use vstd::prelude::*;

use super::state::Rect;

verus! {

/// Annotation colors.
#[derive(Debug, Clone, Copy, PartialEq, Eq, Structural)]
pub enum Color {
    Red,
    Yellow,
    Green,
    Blue,
}

pub open spec fn spec_argb(c: Color) -> u32 {
    match c {
        Color::Red => 0x00_FF_3B_30,
        Color::Yellow => 0x00_FF_CC_00,
        Color::Green => 0x00_34_C7_59,
        Color::Blue => 0x00_00_7A_FF,
    }
}

impl Color {
    /// The color as a `0x00RRGGBB` pixel value.
    pub fn argb(self) -> (v: u32)
        ensures
            v == spec_argb(self),
    {
        match self {
            Color::Red => 0x00_FF_3B_30,
            Color::Yellow => 0x00_FF_CC_00,
            Color::Green => 0x00_34_C7_59,
            Color::Blue => 0x00_00_7A_FF,
        }
    }

    /// The color as opaque `[r, g, b, a]` bytes.
    pub fn rgba(self) -> (v: [u8; 4])
        ensures
            v@ == seq![
                ((spec_argb(self) >> 16) & 0xFF) as u8,
                ((spec_argb(self) >> 8) & 0xFF) as u8,
                (spec_argb(self) & 0xFF) as u8,
                0xFFu8,
            ],
    {
        let argb = self.argb();
        [
            ((argb >> 16) & 0xFF) as u8,
            ((argb >> 8) & 0xFF) as u8,
            (argb & 0xFF) as u8,
            0xFF,
        ]
    }
}

/// Stroke widths.
#[derive(Debug, Clone, Copy, PartialEq, Eq, Structural)]
pub enum Stroke {
    Thin,
    Medium,
    Thick,
}

pub open spec fn spec_px(s: Stroke) -> i32 {
    match s {
        Stroke::Thin => 2,
        Stroke::Medium => 4,
        Stroke::Thick => 6,
    }
}

pub open spec fn stroke_up(s: Stroke) -> Stroke {
    match s {
        Stroke::Thin => Stroke::Medium,
        Stroke::Medium => Stroke::Thick,
        Stroke::Thick => Stroke::Thick,
    }
}

pub open spec fn stroke_down(s: Stroke) -> Stroke {
    match s {
        Stroke::Thick => Stroke::Medium,
        Stroke::Medium => Stroke::Thin,
        Stroke::Thin => Stroke::Thin,
    }
}

impl Stroke {
    /// Line thickness in frame pixels.
    pub fn px(self) -> (v: i32)
        ensures
            v == spec_px(self),
    {
        match self {
            Self::Thin => 2,
            Self::Medium => 4,
            Self::Thick => 6,
        }
    }

    /// One size thicker; `Thick` stays `Thick`.
    pub fn step_up(self) -> (s: Self)
        ensures
            s == stroke_up(self),
    {
        match self {
            Self::Thin => Self::Medium,
            Self::Medium => Self::Thick,
            Self::Thick => Self::Thick,
        }
    }

    /// One size thinner; `Thin` stays `Thin`.
    pub fn step_down(self) -> (s: Self)
        ensures
            s == stroke_down(self),
    {
        match self {
            Self::Thick => Self::Medium,
            Self::Medium => Self::Thin,
            Self::Thin => Self::Thin,
        }
    }
}

/// Color and stroke of an annotation.
#[derive(Debug, Clone, Copy, PartialEq, Eq, Structural)]
pub struct AnnotationStyle {
    pub color: Color,
    pub stroke: Stroke,
}

impl Default for AnnotationStyle {
    /// Red, medium stroke.
    fn default() -> (s: Self)
        ensures
            s == (AnnotationStyle { color: Color::Red, stroke: Stroke::Medium }),
    {
        Self { color: Color::Red, stroke: Stroke::Medium }
    }
}

/// A placed annotation, in frame coordinates (physical pixels of the
/// captured image).
#[derive(Debug, PartialEq, Eq)]
pub enum Annotation {
    Arrow { from: (i32, i32), to: (i32, i32), style: AnnotationStyle },
    Rect { rect: Rect, style: AnnotationStyle },
    Ellipse { rect: Rect, style: AnnotationStyle },
    Mosaic { rect: Rect, block_size: u32 },
    Pen { points: Vec<(i32, i32)>, style: AnnotationStyle },
    Text { origin: (i32, i32), content: String, style: AnnotationStyle },
}

/// An annotation with its point list and text taken by value.
pub enum AnnotationView {
    Arrow { from: (i32, i32), to: (i32, i32), style: AnnotationStyle },
    Rect { rect: Rect, style: AnnotationStyle },
    Ellipse { rect: Rect, style: AnnotationStyle },
    Mosaic { rect: Rect, block_size: u32 },
    Pen { points: Seq<(i32, i32)>, style: AnnotationStyle },
    Text { origin: (i32, i32), content: Seq<char>, style: AnnotationStyle },
}

impl View for Annotation {
    type V = AnnotationView;

    open spec fn view(&self) -> AnnotationView {
        match *self {
            Annotation::Arrow { from, to, style } => AnnotationView::Arrow { from, to, style },
            Annotation::Rect { rect, style } => AnnotationView::Rect { rect, style },
            Annotation::Ellipse { rect, style } => AnnotationView::Ellipse { rect, style },
            Annotation::Mosaic { rect, block_size } => AnnotationView::Mosaic { rect, block_size },
            Annotation::Pen { points, style } => AnnotationView::Pen { points: points@, style },
            Annotation::Text { origin, content, style } => AnnotationView::Text {
                origin,
                content: content@,
                style,
            },
        }
    }
}

pub open spec fn option_annotation_view(a: Option<Annotation>) -> Option<AnnotationView> {
    match a {
        Some(a) => Some(a@),
        None => None,
    }
}

/// A copy of a list of points.
pub fn copy_points(points: &Vec<(i32, i32)>) -> (r: Vec<(i32, i32)>)
    ensures
        r@ == points@,
{
    let mut r: Vec<(i32, i32)> = Vec::with_capacity(points.len());
    let mut i: usize = 0;
    while i < points.len()
        invariant
            0 <= i <= points@.len(),
            r@ == points@.subrange(0, i as int),
        decreases points@.len() - i,
    {
        r.push(points[i]);
        i = i + 1;
        assert(r@ =~= points@.subrange(0, i as int));
    }
    assert(points@.subrange(0, points@.len() as int) =~= points@);
    r
}

/// Two annotations hold the same values (vectors and strings compared by
/// content).
pub open spec fn same_annotation(a: Annotation, b: Annotation) -> bool {
    match (a, b) {
        (Annotation::Pen { points: p1, style: s1 }, Annotation::Pen { points: p2, style: s2 }) => p1@
            == p2@ && s1 == s2,
        (
            Annotation::Text { origin: o1, content: c1, style: s1 },
            Annotation::Text { origin: o2, content: c2, style: s2 },
        ) => o1 == o2 && c1@ == c2@ && s1 == s2,
        (Annotation::Pen { .. }, _) | (Annotation::Text { .. }, _) => false,
        _ => a == b,
    }
}

impl Clone for Annotation {
    fn clone(&self) -> (r: Self)
        ensures
            same_annotation(r, *self),
    {
        match self {
            Annotation::Arrow { from, to, style } => Annotation::Arrow {
                from: *from,
                to: *to,
                style: *style,
            },
            Annotation::Rect { rect, style } => Annotation::Rect { rect: *rect, style: *style },
            Annotation::Ellipse { rect, style } => Annotation::Ellipse { rect: *rect, style: *style },
            Annotation::Mosaic { rect, block_size } => Annotation::Mosaic {
                rect: *rect,
                block_size: *block_size,
            },
            Annotation::Pen { points, style } => Annotation::Pen {
                points: copy_points(points),
                style: *style,
            },
            Annotation::Text { origin, content, style } => Annotation::Text {
                origin: *origin,
                content: content.clone(),
                style: *style,
            },
        }
    }
}

/// Annotation tools.
#[derive(Debug, Clone, Copy, PartialEq, Eq, Structural)]
pub enum Tool {
    Move,
    Arrow,
    Rect,
    Ellipse,
    Mosaic,
    Pen,
    Text,
}

impl Tool {
    /// Every tool but `Move` draws.
    pub fn is_drawing(self) -> (b: bool)
        ensures
            b == (self != Tool::Move),
    {
        !matches!(self, Tool::Move)
    }
}

/// An in-flight drawing: a rubber-band shape between two anchors, or a
/// free-form pen polyline.
#[derive(Debug)]
pub enum PendingDraw {
    Shape { tool: Tool, from_frame: (i32, i32), to_frame: (i32, i32), style: AnnotationStyle },
    Pen { points: Vec<(i32, i32)>, style: AnnotationStyle },
}

/// A pending draw with its samples taken by value.
pub enum PendingView {
    Shape { tool: Tool, from_frame: (i32, i32), to_frame: (i32, i32), style: AnnotationStyle },
    Pen { points: Seq<(i32, i32)>, style: AnnotationStyle },
}

impl View for PendingDraw {
    type V = PendingView;

    open spec fn view(&self) -> PendingView {
        match *self {
            PendingDraw::Shape { tool, from_frame, to_frame, style } => PendingView::Shape {
                tool,
                from_frame,
                to_frame,
                style,
            },
            PendingDraw::Pen { points, style } => PendingView::Pen { points: points@, style },
        }
    }
}

/// A pending draw after the cursor moves to `p`: a shape's moving anchor
/// follows it; a pen appends it unless it repeats the last sample.
pub open spec fn pending_extend(d: PendingView, p: (i32, i32)) -> PendingView {
    match d {
        PendingView::Shape { tool, from_frame, style, .. } => PendingView::Shape {
            tool,
            from_frame,
            to_frame: p,
            style,
        },
        PendingView::Pen { points, style } => PendingView::Pen {
            points: pen_extended(points, p),
            style,
        },
    }
}

/// The annotation a finished draw leaves behind, if any.
pub open spec fn pending_finalize(d: PendingView) -> Option<AnnotationView> {
    match d {
        PendingView::Shape { tool, from_frame, to_frame, style } => option_annotation_view(
            spec_finalize_shape(tool, from_frame, to_frame, style),
        ),
        PendingView::Pen { points, style } => if points.len() < 2 {
            None
        } else {
            Some(AnnotationView::Pen { points, style })
        },
    }
}

/// The samples of a pen draw (empty for a shape).
pub open spec fn pen_points(d: PendingDraw) -> Seq<(i32, i32)> {
    match d {
        PendingDraw::Pen { points, .. } => points@,
        PendingDraw::Shape { .. } => Seq::empty(),
    }
}

/// The style of a pending draw.
pub open spec fn style_of(d: PendingDraw) -> AnnotationStyle {
    match d {
        PendingDraw::Pen { style, .. } => style,
        PendingDraw::Shape { style, .. } => style,
    }
}

/// The pen samples after offering `p`: appended unless it repeats the last
/// sample.
pub open spec fn pen_extended(points: Seq<(i32, i32)>, p: (i32, i32)) -> Seq<(i32, i32)> {
    if points.len() == 0 || points.last() != p {
        points.push(p)
    } else {
        points
    }
}

/// Finalizing is free of overflow: a normalized shape's corner differences
/// are representable.
pub open spec fn finalize_fits(d: PendingDraw) -> bool {
    match d {
        PendingDraw::Shape { tool, from_frame, to_frame, .. } => (tool == Tool::Rect || tool
            == Tool::Ellipse || tool == Tool::Mosaic) ==> Rect::normalize_fits(from_frame, to_frame),
        PendingDraw::Pen { .. } => true,
    }
}

/// The annotation a shape draw stands for; `None` for tools that do not
/// draw shapes.
pub open spec fn spec_finalize_shape(
    tool: Tool,
    from: (i32, i32),
    to: (i32, i32),
    style: AnnotationStyle,
) -> Option<Annotation> {
    match tool {
        Tool::Move | Tool::Pen | Tool::Text => None,
        Tool::Arrow => Some(Annotation::Arrow { from, to, style }),
        Tool::Rect => Some(Annotation::Rect { rect: Rect::spec_normalize(from, to), style }),
        Tool::Ellipse => Some(Annotation::Ellipse { rect: Rect::spec_normalize(from, to), style }),
        Tool::Mosaic => Some(
            Annotation::Mosaic { rect: Rect::spec_normalize(from, to), block_size: 8 },
        ),
    }
}

impl Clone for PendingDraw {
    fn clone(&self) -> (r: Self)
        ensures
            match *self {
                PendingDraw::Shape { .. } => r == *self,
                PendingDraw::Pen { .. } => r is Pen && pen_points(r) == pen_points(*self)
                    && style_of(r) == style_of(*self),
            },
    {
        match self {
            PendingDraw::Shape { tool, from_frame, to_frame, style } => PendingDraw::Shape {
                tool: *tool,
                from_frame: *from_frame,
                to_frame: *to_frame,
                style: *style,
            },
            PendingDraw::Pen { points, style } => PendingDraw::Pen {
                points: copy_points(points),
                style: *style,
            },
        }
    }
}

impl PendingDraw {
    /// A rubber-band shape with both anchors given.
    pub fn shape(tool: Tool, style: AnnotationStyle, from: (i32, i32), to: (i32, i32)) -> (d: Self)
        ensures
            d == (PendingDraw::Shape { tool, from_frame: from, to_frame: to, style }),
    {
        Self::Shape { tool, from_frame: from, to_frame: to, style }
    }

    /// A pen stroke starting at `first`.
    pub fn pen(style: AnnotationStyle, first: (i32, i32)) -> (d: Self)
        ensures
            d matches PendingDraw::Pen { points, style: s } && points@ == seq![first] && s
                == style,
    {
        Self::Pen { points: vec![first], style }
    }

    /// A shape's moving anchor follows `p`; a pen appends `p` unless it is
    /// the same pixel as the last sample.
    pub fn extend_to(&mut self, p: (i32, i32))
        ensures
            match *old(self) {
                PendingDraw::Shape { tool, from_frame, style, .. } => *final(self) == (
                PendingDraw::Shape { tool, from_frame, to_frame: p, style }),
                PendingDraw::Pen { .. } => {
                    &&& *final(self) is Pen
                    &&& pen_points(*final(self)) == pen_extended(pen_points(*old(self)), p)
                    &&& style_of(*final(self)) == style_of(*old(self))
                },
            },
            final(self)@ == pending_extend(old(self)@, p),
    {
        match self {
            PendingDraw::Shape { to_frame, .. } => {
                *to_frame = p;
            },
            PendingDraw::Pen { points, .. } => {
                let n = points.len();
                let keep = if n == 0 {
                    true
                } else {
                    let last = points[n - 1];
                    last.0 != p.0 || last.1 != p.1
                };
                if keep {
                    points.push(p);
                }
            },
        }
    }

    /// Same as `extend_to`.
    pub fn push_point(&mut self, p: (i32, i32))
        ensures
            match *old(self) {
                PendingDraw::Shape { tool, from_frame, style, .. } => *final(self) == (
                PendingDraw::Shape { tool, from_frame, to_frame: p, style }),
                PendingDraw::Pen { .. } => {
                    &&& *final(self) is Pen
                    &&& pen_points(*final(self)) == pen_extended(pen_points(*old(self)), p)
                    &&& style_of(*final(self)) == style_of(*old(self))
                },
            },
            final(self)@ == pending_extend(old(self)@, p),
    {
        self.extend_to(p)
    }

    /// The annotation this draw represents: `None` for the Move, Pen and Text
    /// tools used as shapes, and for a pen with fewer than two samples.
    pub fn finalize(self) -> (r: Option<Annotation>)
        requires
            finalize_fits(self),
        ensures
            match self {
                PendingDraw::Shape { tool, from_frame, to_frame, style } => r
                    == spec_finalize_shape(tool, from_frame, to_frame, style),
                PendingDraw::Pen { points, style } => if points@.len() < 2 {
                    r is None
                } else {
                    r == Some(Annotation::Pen { points, style })
                },
            },
            option_annotation_view(r) == pending_finalize(self@),
    {
        match self {
            PendingDraw::Shape { tool, from_frame, to_frame, style } => match tool {
                Tool::Move | Tool::Pen | Tool::Text => None,
                Tool::Arrow => Some(Annotation::Arrow { from: from_frame, to: to_frame, style }),
                Tool::Rect => Some(
                    Annotation::Rect { rect: Rect::normalize(from_frame, to_frame), style },
                ),
                Tool::Ellipse => Some(
                    Annotation::Ellipse { rect: Rect::normalize(from_frame, to_frame), style },
                ),
                Tool::Mosaic => Some(
                    Annotation::Mosaic { rect: Rect::normalize(from_frame, to_frame), block_size: 8 },
                ),
            },
            PendingDraw::Pen { points, style } => {
                if points.len() < 2 {
                    None
                } else {
                    Some(Annotation::Pen { points, style })
                }
            },
        }
    }
}

/// The history's contents: the applied annotations (oldest first) and the
/// undone ones (the next to redo last).
pub type HistoryView = (Seq<Annotation>, Seq<Annotation>);

pub open spec fn history_push<A>(h: (Seq<A>, Seq<A>), a: A) -> (Seq<A>, Seq<A>) {
    (h.0.push(a), Seq::empty())
}

pub open spec fn history_undo<A>(h: (Seq<A>, Seq<A>)) -> (Seq<A>, Seq<A>) {
    if h.0.len() > 0 {
        (h.0.drop_last(), h.1.push(h.0.last()))
    } else {
        h
    }
}

pub open spec fn history_redo<A>(h: (Seq<A>, Seq<A>)) -> (Seq<A>, Seq<A>) {
    if h.1.len() > 0 {
        (h.0.push(h.1.last()), h.1.drop_last())
    } else {
        h
    }
}

/// Undo/redo stack. Each completed annotation is pushed; undo moves the top
/// annotation to the redo stack; any new push clears the redo stack.
pub struct History {
    undo_stack: Vec<Annotation>,
    redo_stack: Vec<Annotation>,
}

impl View for History {
    type V = HistoryView;

    closed spec fn view(&self) -> HistoryView {
        (self.undo_stack@, self.redo_stack@)
    }
}

impl History {
    /// An empty history.
    pub fn new() -> (h: Self)
        ensures
            h@.0 == Seq::<Annotation>::empty(),
            h@.1 == Seq::<Annotation>::empty(),
    {
        Self { undo_stack: Vec::new(), redo_stack: Vec::new() }
    }

    /// Record a completed annotation; the redo stack is discarded.
    pub fn push(&mut self, a: Annotation)
        ensures
            final(self)@ == history_push(old(self)@, a),
    {
        self.undo_stack.push(a);
        self.redo_stack.clear();
    }

    /// Move the newest applied annotation to the redo stack. Returns whether
    /// there was one.
    pub fn undo(&mut self) -> (changed: bool)
        ensures
            changed == (old(self)@.0.len() > 0),
            final(self)@ == history_undo(old(self)@),
    {
        if let Some(a) = self.undo_stack.pop() {
            self.redo_stack.push(a);
            true
        } else {
            false
        }
    }

    /// Re-apply the most recently undone annotation. Returns whether there
    /// was one.
    pub fn redo(&mut self) -> (changed: bool)
        ensures
            changed == (old(self)@.1.len() > 0),
            final(self)@ == history_redo(old(self)@),
    {
        if let Some(a) = self.redo_stack.pop() {
            self.undo_stack.push(a);
            true
        } else {
            false
        }
    }

    /// The applied annotations, oldest first.
    pub fn current(&self) -> (s: &[Annotation])
        ensures
            s@ == self@.0,
    {
        self.undo_stack.as_slice()
    }

    pub fn can_undo(&self) -> (b: bool)
        ensures
            b == (self@.0.len() > 0),
    {
        !self.undo_stack.is_empty()
    }

    pub fn can_redo(&self) -> (b: bool)
        ensures
            b == (self@.1.len() > 0),
    {
        !self.redo_stack.is_empty()
    }
}

impl Default for History {
    fn default() -> (h: Self)
        ensures
            h@.0 == Seq::<Annotation>::empty(),
            h@.1 == Seq::<Annotation>::empty(),
    {
        Self::new()
    }
}

/// The history with each annotation taken by value.
pub open spec fn history_model(h: HistoryView) -> (Seq<AnnotationView>, Seq<AnnotationView>) {
    (h.0.map_values(|a: Annotation| a@), h.1.map_values(|a: Annotation| a@))
}

pub proof fn lemma_model_push(h: HistoryView, a: Annotation)
    ensures
        history_model(history_push(h, a)) == history_push(history_model(h), a@),
{
    assert(h.0.push(a).map_values(|a: Annotation| a@) =~= h.0.map_values(|a: Annotation| a@).push(
        a@,
    ));
    assert(Seq::<Annotation>::empty().map_values(|a: Annotation| a@) =~= Seq::<
        AnnotationView,
    >::empty());
}

pub proof fn lemma_model_undo(h: HistoryView)
    ensures
        history_model(history_undo(h)) == history_undo(history_model(h)),
{
    if h.0.len() > 0 {
        assert(h.0.drop_last().map_values(|a: Annotation| a@) =~= h.0.map_values(
            |a: Annotation| a@,
        ).drop_last());
        assert(h.1.push(h.0.last()).map_values(|a: Annotation| a@) =~= h.1.map_values(
            |a: Annotation| a@,
        ).push(h.0.last()@));
    }
}

pub proof fn lemma_model_redo(h: HistoryView)
    ensures
        history_model(history_redo(h)) == history_redo(history_model(h)),
{
    if h.1.len() > 0 {
        assert(h.1.drop_last().map_values(|a: Annotation| a@) =~= h.1.map_values(
            |a: Annotation| a@,
        ).drop_last());
        assert(h.0.push(h.1.last()).map_values(|a: Annotation| a@) =~= h.0.map_values(
            |a: Annotation| a@,
        ).push(h.1.last()@));
    }
}

/// `n` consecutive undos.
pub open spec fn undo_n(h: HistoryView, n: nat) -> HistoryView
    decreases n,
{
    if n == 0 {
        h
    } else {
        history_undo(undo_n(h, (n - 1) as nat))
    }
}

/// `n` consecutive redos.
pub open spec fn redo_n(h: HistoryView, n: nat) -> HistoryView
    decreases n,
{
    if n == 0 {
        h
    } else {
        history_redo(redo_n(h, (n - 1) as nat))
    }
}

/// Undo followed by redo restores the history whenever there was something
/// to undo.
pub proof fn lemma_undo_then_redo(h: HistoryView)
    requires
        h.0.len() > 0,
    ensures
        history_redo(history_undo(h)) == h,
{
    assert(h.0.drop_last().push(h.0.last()) =~= h.0);
    assert(h.1.push(h.0.last()).drop_last() =~= h.1);
}

/// Redo followed by undo restores the history whenever there was something
/// to redo.
pub proof fn lemma_redo_then_undo(h: HistoryView)
    requires
        h.1.len() > 0,
    ensures
        history_undo(history_redo(h)) == h,
{
    assert(h.1.drop_last().push(h.1.last()) =~= h.1);
    assert(h.0.push(h.1.last()).drop_last() =~= h.0);
}

/// Undo and redo move annotations between the two stacks and never lose or
/// create one.
pub proof fn lemma_undo_redo_preserve_count(h: HistoryView)
    ensures
        history_undo(h).0.len() + history_undo(h).1.len() == h.0.len() + h.1.len(),
        history_redo(h).0.len() + history_redo(h).1.len() == h.0.len() + h.1.len(),
{
}

/// A push can be undone: afterwards the applied annotations are what they
/// were before the push, and the pushed one is the only one to redo.
pub proof fn lemma_push_then_undo(h: HistoryView, a: Annotation)
    ensures
        history_undo(history_push(h, a)).0 == h.0,
        history_undo(history_push(h, a)).1 == seq![a],
{
    assert(h.0.push(a).drop_last() =~= h.0);
    assert(Seq::<Annotation>::empty().push(a) =~= seq![a]);
}

/// Undoing `n` times and then redoing `n` times restores the history, for
/// any `n` up to the number of applied annotations.
pub proof fn lemma_undo_n_then_redo_n(h: HistoryView, n: nat)
    requires
        n <= h.0.len(),
    ensures
        redo_n(undo_n(h, n), n) == h,
        undo_n(h, n).0 == h.0.subrange(0, h.0.len() - n),
        undo_n(h, n).1.len() == h.1.len() + n,
    decreases n,
{
    if n > 0 {
        let m = (n - 1) as nat;
        lemma_undo_n_then_redo_n(h, m);
        let u = undo_n(h, m);
        assert(u.0.len() > 0);
        assert(u.0.drop_last() =~= h.0.subrange(0, h.0.len() - n));
        lemma_undo_then_redo(u);
        lemma_redo_n_shift(history_undo(u), m);
    } else {
        assert(h.0.subrange(0, h.0.len() as int) =~= h.0);
    }
}

/// `n + 1` redos are one redo followed by `n` redos.
proof fn lemma_redo_n_shift(h: HistoryView, n: nat)
    ensures
        redo_n(h, n + 1) == redo_n(history_redo(h), n),
    decreases n,
{
    if n > 0 {
        let m = (n - 1) as nat;
        lemma_redo_n_shift(h, m);
        assert(redo_n(h, n) == redo_n(history_redo(h), m));
        assert(redo_n(history_redo(h), n) == history_redo(redo_n(history_redo(h), m)));
        assert(redo_n(h, n + 1) == history_redo(redo_n(h, n)));
    } else {
        assert(redo_n(h, 1) == history_redo(redo_n(h, 0)));
    }
}

} // verus!
