//! Annotation tool state and history: which tool is active, the shared
//! style choices, the draft being drawn, the committed marks and the
//! redo stack, and sequence-badge numbering.
//!
//! A mark's geometry (points, bounds, stroke width in pixels) is
//! floating-point and is supplied by the caller as an opaque value `G`;
//! every decision that only needs geometric facts takes them as booleans
//! computed by the caller.

use vstd::prelude::*;
use crate::theme::{Theme, PALETTE};

verus! {

/// What an annotation draws.
#[derive(Clone, Copy, Debug, PartialEq, Eq, Structural)]
pub enum ShapeKind {
    Number,
    Pencil,
    Highlighter,
    Rectangle,
    Ellipse,
    Line,
    Arrow,
    Polyline,
    Mosaic,
    Blur,
}

/// One annotation: its kind, sequence number (badges only), color,
/// stroke-width choice and caller-owned geometry.
#[derive(Debug, PartialEq)]
pub struct Mark<G> {
    pub kind: ShapeKind,
    pub number: Option<u32>,
    pub color: u32,
    /// Index into the width table of the tool family (see
    /// [`Annotations::width_ix`]).
    pub width_ix: usize,
    pub geometry: G,
}

/// Swatch display names, in palette order.
pub open spec fn palette_name_spec(ix: int) -> Seq<char> {
    if ix == 0 { "Red"@ } else if ix == 1 { "Orange"@ } else if ix == 2 { "Yellow"@ }
    else if ix == 3 { "Green"@ } else if ix == 4 { "Blue"@ } else if ix == 5 { "Black"@ }
    else { "White"@ }
}

/// The display name of palette swatch `ix`.
pub fn palette_name(ix: usize) -> (r: &'static str)
    requires
        ix < PALETTE,
    ensures
        r@ == palette_name_spec(ix as int),
{
    match ix {
        0 => "Red",
        1 => "Orange",
        2 => "Yellow",
        3 => "Green",
        4 => "Blue",
        5 => "Black",
        _ => "White",
    }
}

/// The largest sequence number among `marks` (0 when there is none).
pub open spec fn max_number<G>(marks: Seq<Mark<G>>) -> nat
    decreases marks.len(),
{
    if marks.len() == 0 {
        0
    } else {
        let rest = max_number(marks.drop_last());
        match marks.last().number {
            Some(n) => if n as nat > rest { n as nat } else { rest },
            None => rest,
        }
    }
}

/// The number the next badge gets: one past the largest committed number,
/// saturating at `u32::MAX`.
pub open spec fn next_number_spec<G>(marks: Seq<Mark<G>>) -> u32 {
    if max_number(marks) >= u32::MAX { u32::MAX } else { (max_number(marks) + 1) as u32 }
}

/// The whole annotation state.
pub struct Annotations<G> {
    tool: Option<ShapeKind>,
    color_ix: usize,
    width_ix: usize,
    number_size_ix: usize,
    highlighter_width_ix: usize,
    highlighter_color_ix: usize,
    shapes: Vec<Mark<G>>,
    undone: Vec<Mark<G>>,
    draft: Option<Mark<G>>,
    pressed: bool,
}

/// The mathematical content of [`Annotations`].
pub struct AnnotationsView<G> {
    pub tool: Option<ShapeKind>,
    pub color_ix: nat,
    pub width_ix: nat,
    pub number_size_ix: nat,
    pub highlighter_width_ix: nat,
    pub highlighter_color_ix: nat,
    pub shapes: Seq<Mark<G>>,
    pub undone: Seq<Mark<G>>,
    pub draft: Option<Mark<G>>,
    pub pressed: bool,
}

impl<G> View for Annotations<G> {
    type V = AnnotationsView<G>;

    closed spec fn view(&self) -> AnnotationsView<G> {
        AnnotationsView {
            tool: self.tool,
            color_ix: self.color_ix as nat,
            width_ix: self.width_ix as nat,
            number_size_ix: self.number_size_ix as nat,
            highlighter_width_ix: self.highlighter_width_ix as nat,
            highlighter_color_ix: self.highlighter_color_ix as nat,
            shapes: self.shapes@,
            undone: self.undone@,
            draft: self.draft,
            pressed: self.pressed,
        }
    }
}

/// The state [`Annotations::new`] starts in: no tool, red, medium width,
/// medium badges; the highlighter remembers its own medium width and
/// yellow.
pub open spec fn initial_view<G>() -> AnnotationsView<G> {
    AnnotationsView {
        tool: None,
        color_ix: 0,
        width_ix: 1,
        number_size_ix: 1,
        highlighter_width_ix: 1,
        highlighter_color_ix: 2,
        shapes: Seq::empty(),
        undone: Seq::empty(),
        draft: None,
        pressed: false,
    }
}

/// The style indices stay inside their tables.
pub open spec fn styles_in_range<G>(v: AnnotationsView<G>) -> bool {
    &&& v.color_ix < PALETTE
    &&& v.highlighter_color_ix < PALETTE
    &&& v.width_ix < 3
    &&& v.highlighter_width_ix < 3
    &&& v.number_size_ix < 3
}

/// Does the active tool use the highlighter's own style slots?
pub open spec fn uses_highlighter_style(tool: Option<ShapeKind>) -> bool {
    tool == Some(ShapeKind::Highlighter)
}

/// The palette index the active tool draws with.
pub open spec fn active_color_ix<G>(v: AnnotationsView<G>) -> nat {
    if uses_highlighter_style(v.tool) { v.highlighter_color_ix } else { v.color_ix }
}

/// The width index the active tool draws with.
pub open spec fn active_width_ix<G>(v: AnnotationsView<G>) -> nat {
    if uses_highlighter_style(v.tool) { v.highlighter_width_ix } else { v.width_ix }
}

/// The color a new mark of the active tool gets: the palette color, with
/// the highlighter's alpha fixed at 96 (about 38%).
pub open spec fn mark_color(tool: Option<ShapeKind>, palette_color: u32) -> u32 {
    if uses_highlighter_style(tool) { (palette_color & 0xffff_ff00) | 96 } else { palette_color }
}

/// Undo: discard the draft if there is one; otherwise move the latest
/// mark onto the redo stack. Ends any press.
pub open spec fn undo_spec<G>(v: AnnotationsView<G>) -> AnnotationsView<G> {
    if v.draft is Some {
        AnnotationsView { draft: None, pressed: false, ..v }
    } else if v.shapes.len() > 0 {
        AnnotationsView {
            shapes: v.shapes.drop_last(),
            undone: v.undone.push(v.shapes.last()),
            pressed: false,
            ..v
        }
    } else {
        AnnotationsView { pressed: false, ..v }
    }
}

/// Redo: bring back the most recently undone mark, unless drawing.
pub open spec fn redo_spec<G>(v: AnnotationsView<G>) -> AnnotationsView<G> {
    if v.draft is None && v.undone.len() > 0 {
        AnnotationsView { shapes: v.shapes.push(v.undone.last()), undone: v.undone.drop_last(), ..v }
    } else {
        v
    }
}

/// Commit `m` as the newest mark; a new mark clears the redo stack.
pub open spec fn commit_spec<G>(v: AnnotationsView<G>, m: Mark<G>) -> AnnotationsView<G> {
    AnnotationsView { shapes: v.shapes.push(m), undone: Seq::empty(), ..v }
}

/// Pointer down inside (or outside) the selection with the active tool.
/// Badges need room; a polyline in progress only records the press.
pub open spec fn begin_spec<G>(
    v: AnnotationsView<G>,
    inside: bool,
    room_for_badge: bool,
    palette_color: u32,
    geometry: G,
) -> AnnotationsView<G> {
    match v.tool {
        None => v,
        Some(kind) => if !inside || (kind == ShapeKind::Number && !room_for_badge) {
            v
        } else if kind == ShapeKind::Polyline && v.draft is Some {
            AnnotationsView { pressed: true, ..v }
        } else {
            AnnotationsView {
                pressed: true,
                draft: Some(Mark {
                    kind,
                    number: if kind == ShapeKind::Number { Some(next_number_spec(v.shapes)) } else { None },
                    color: mark_color(v.tool, palette_color),
                    width_ix: active_width_ix(v) as usize,
                    geometry,
                }),
                ..v
            }
        },
    }
}

/// Pointer up. A polyline keeps drawing; any other draft is committed
/// when `valid` (freehand strokes always are) and dropped otherwise.
pub open spec fn end_spec<G>(v: AnnotationsView<G>, valid: bool) -> AnnotationsView<G> {
    if !v.pressed {
        v
    } else {
        match v.draft {
            Some(d) => if d.kind == ShapeKind::Polyline {
                AnnotationsView { pressed: false, ..v }
            } else if valid || d.kind == ShapeKind::Pencil || d.kind == ShapeKind::Highlighter {
                commit_spec(AnnotationsView { pressed: false, draft: None, ..v }, d)
            } else {
                AnnotationsView { pressed: false, draft: None, ..v }
            },
            None => AnnotationsView { pressed: false, ..v },
        }
    }
}

/// Finish a polyline: commit it with its confirmed vertices (`trimmed`)
/// when `keep`, else drop it.
pub open spec fn finish_polyline_spec<G>(v: AnnotationsView<G>, trimmed: G, keep: bool) -> AnnotationsView<G> {
    match v.draft {
        Some(d) => if d.kind != ShapeKind::Polyline {
            v
        } else if keep {
            commit_spec(AnnotationsView { pressed: false, draft: None, ..v }, Mark { geometry: trimmed, ..d })
        } else {
            AnnotationsView { pressed: false, draft: None, ..v }
        },
        None => v,
    }
}

impl<G> Annotations<G> {
    /// The style indices stay inside their tables (every constructor and
    /// method keeps this).
    pub open spec fn wf(&self) -> bool {
        styles_in_range(self@)
    }

    /// A fresh state: no tool, nothing drawn.
    pub fn new() -> (r: Self)
        ensures
            r@ == initial_view::<G>(),
            r.wf(),
    {
        Annotations {
            tool: None,
            color_ix: 0,
            width_ix: 1,
            number_size_ix: 1,
            highlighter_width_ix: 1,
            highlighter_color_ix: 2,
            shapes: Vec::new(),
            undone: Vec::new(),
            draft: None,
            pressed: false,
        }
    }

    /// Is a tool active?
    pub fn enabled(&self) -> (r: bool)
        ensures
            r == (self@.tool is Some),
    {
        self.tool.is_some()
    }

    /// The active tool.
    pub fn tool(&self) -> (r: Option<ShapeKind>)
        ensures
            r == self@.tool,
    {
        self.tool
    }

    /// The palette index the active tool draws with.
    pub fn color_ix(&self) -> (r: usize)
        requires
            self.wf(),
        ensures
            r == active_color_ix(self@),
            r < PALETTE,
    {
        if self.tool == Some(ShapeKind::Highlighter) { self.highlighter_color_ix } else { self.color_ix }
    }

    /// The active tool's color in `theme`'s palette.
    pub fn color(&self, theme: &Theme) -> (r: u32)
        requires
            self.wf(),
        ensures
            r == theme.annotation_colors@[active_color_ix(self@) as int],
    {
        theme.annotation_colors[self.color_ix()]
    }

    /// The width index the active tool draws with: the highlighter picks
    /// among 12/20/32 logical pixels, the other tools among 1/3/5.
    pub fn width_ix(&self) -> (r: usize)
        requires
            self.wf(),
        ensures
            r == active_width_ix(self@),
            r < 3,
    {
        if self.tool == Some(ShapeKind::Highlighter) { self.highlighter_width_ix } else { self.width_ix }
    }

    /// The badge size index: 24/32/40 logical pixels.
    pub fn number_size_ix(&self) -> (r: usize)
        requires
            self.wf(),
        ensures
            r == self@.number_size_ix,
            r < 3,
    {
        self.number_size_ix
    }

    /// Choose a badge size; out-of-range indices are ignored.
    pub fn set_number_size(&mut self, ix: usize)
        ensures
            old(self).wf() ==> final(self).wf(),
            final(self)@ == (if ix < 3 { AnnotationsView { number_size_ix: ix as nat, ..old(self)@ } } else { old(self)@ }),
    {
        if ix < 3 {
            self.number_size_ix = ix;
        }
    }

    /// The number the next badge gets.
    pub fn next_number(&self) -> (r: u32)
        ensures
            r == next_number_spec(self@.shapes),
    {
        let mut best: u32 = 0;
        let mut i: usize = 0;
        while i < self.shapes.len()
            invariant
                i <= self.shapes.len(),
                best as nat == max_number(self.shapes@.subrange(0, i as int)),
            decreases self.shapes.len() - i,
        {
            let ghost pre = self.shapes@.subrange(0, i as int);
            assert(self.shapes@.subrange(0, i + 1).drop_last() =~= pre);
            match self.shapes[i].number {
                Some(n) => {
                    if n > best {
                        best = n;
                    }
                },
                None => {},
            }
            i = i + 1;
        }
        assert(self.shapes@.subrange(0, self.shapes.len() as int) =~= self.shapes@);
        if best == u32::MAX { u32::MAX } else { best + 1 }
    }

    /// Switch to `kind`, or leave it when it is already active. Any draft
    /// is discarded; committed marks stay.
    pub fn toggle(&mut self, kind: ShapeKind)
        ensures
            old(self).wf() ==> final(self).wf(),
            final(self)@ == (AnnotationsView {
                tool: if old(self)@.tool == Some(kind) { None } else { Some(kind) },
                draft: None,
                pressed: false,
                ..old(self)@
            }),
    {
        self.draft = None;
        self.pressed = false;
        self.tool = if self.tool == Some(kind) { None } else { Some(kind) };
    }

    /// Choose a palette color for the active tool family; out-of-range
    /// indices are ignored.
    pub fn set_color(&mut self, ix: usize)
        ensures
            old(self).wf() ==> final(self).wf(),
            final(self)@ == (if ix >= PALETTE {
                old(self)@
            } else if uses_highlighter_style(old(self)@.tool) {
                AnnotationsView { highlighter_color_ix: ix as nat, ..old(self)@ }
            } else {
                AnnotationsView { color_ix: ix as nat, ..old(self)@ }
            }),
    {
        if ix < PALETTE {
            if self.tool == Some(ShapeKind::Highlighter) {
                self.highlighter_color_ix = ix;
            } else {
                self.color_ix = ix;
            }
        }
    }

    /// Choose a width for the active tool family; out-of-range indices are
    /// ignored.
    pub fn set_width(&mut self, ix: usize)
        ensures
            old(self).wf() ==> final(self).wf(),
            final(self)@ == (if ix >= 3 {
                old(self)@
            } else if uses_highlighter_style(old(self)@.tool) {
                AnnotationsView { highlighter_width_ix: ix as nat, ..old(self)@ }
            } else {
                AnnotationsView { width_ix: ix as nat, ..old(self)@ }
            }),
    {
        if ix < 3 {
            if self.tool == Some(ShapeKind::Highlighter) {
                self.highlighter_width_ix = ix;
            } else {
                self.width_ix = ix;
            }
        }
    }

    /// Drop every mark, the redo stack and the draft, and leave the tool.
    /// Style choices are kept.
    pub fn reset(&mut self)
        ensures
            old(self).wf() ==> final(self).wf(),
            final(self)@ == (AnnotationsView {
                shapes: Seq::empty(),
                undone: Seq::empty(),
                draft: None,
                pressed: false,
                tool: None,
                ..old(self)@
            }),
    {
        self.shapes.clear();
        self.undone.clear();
        self.draft = None;
        self.pressed = false;
        self.tool = None;
    }

    /// Escape: cancel the draft if there is one; otherwise leave the tool
    /// (keeping the marks). Returns whether anything happened.
    pub fn cancel(&mut self) -> (r: bool)
        ensures
            old(self).wf() ==> final(self).wf(),
            r == (old(self)@.draft is Some || old(self)@.tool is Some),
            final(self)@ == (if old(self)@.draft is Some {
                AnnotationsView { draft: None, pressed: false, ..old(self)@ }
            } else {
                AnnotationsView { tool: None, pressed: false, ..old(self)@ }
            }),
    {
        self.pressed = false;
        if self.draft.is_some() {
            self.draft = None;
            return true;
        }
        if self.tool.is_some() {
            self.tool = None;
            return true;
        }
        false
    }

    /// Undo: discard the draft if there is one; otherwise move the latest
    /// mark onto the redo stack.
    pub fn undo(&mut self)
        ensures
            old(self).wf() ==> final(self).wf(),
            final(self)@ == undo_spec(old(self)@),
    {
        self.pressed = false;
        if self.draft.is_some() {
            self.draft = None;
            return;
        }
        if let Some(shape) = self.shapes.pop() {
            self.undone.push(shape);
        }
    }

    /// Redo: bring back the most recently undone mark (not while drawing).
    pub fn redo(&mut self)
        ensures
            old(self).wf() ==> final(self).wf(),
            final(self)@ == redo_spec(old(self)@),
    {
        if self.draft.is_none() {
            if let Some(shape) = self.undone.pop() {
                self.shapes.push(shape);
            }
        }
    }

    /// Is a press in progress?
    pub fn is_pressed(&self) -> (r: bool)
        ensures
            r == self@.pressed,
    {
        self.pressed
    }

    /// Is a polyline being drawn?
    pub fn is_drawing_polyline(&self) -> (r: bool)
        ensures
            r == (self@.draft matches Some(d) && d.kind == ShapeKind::Polyline),
    {
        match &self.draft {
            Some(d) => d.kind == ShapeKind::Polyline,
            None => false,
        }
    }

    /// The committed marks, oldest first.
    pub fn shapes(&self) -> (r: &Vec<Mark<G>>)
        ensures
            r@ == self@.shapes,
    {
        &self.shapes
    }

    /// The mark being drawn, if any.
    pub fn draft(&self) -> (r: Option<&Mark<G>>)
        ensures
            match (r, self@.draft) {
                (Some(a), Some(b)) => *a == b,
                (None, None) => true,
                _ => false,
            },
    {
        match &self.draft {
            Some(d) => Some(d),
            None => None,
        }
    }

    /// Pointer down with the active tool. `inside` says whether the press
    /// is inside the selection; `room_for_badge` whether the selection
    /// can hold a badge (16 logical pixels each way); `geometry` is the
    /// new mark's starting geometry. Returns whether a draft was started.
    pub fn begin(&mut self, inside: bool, room_for_badge: bool, theme: &Theme, geometry: G) -> (started: bool)
        requires
            old(self).wf(),
        ensures
            final(self).wf(),
            final(self)@ == begin_spec(old(self)@, inside, room_for_badge,
                theme.annotation_colors@[active_color_ix(old(self)@) as int], geometry),
            started <==> (old(self)@.tool matches Some(kind) && inside
                && !(kind == ShapeKind::Number && !room_for_badge)
                && !(kind == ShapeKind::Polyline && old(self)@.draft is Some)),
    {
        let kind = match self.tool {
            Some(k) => k,
            None => return false,
        };
        if !inside || (kind == ShapeKind::Number && !room_for_badge) {
            return false;
        }
        self.pressed = true;
        if kind == ShapeKind::Polyline && self.draft.is_some() {
            return false;
        }
        let palette_color = self.color(theme);
        let color = if kind == ShapeKind::Highlighter { (palette_color & 0xffff_ff00) | 96 } else { palette_color };
        let number = if kind == ShapeKind::Number { Some(self.next_number()) } else { None };
        let width_ix = self.width_ix();
        self.draft = Some(Mark { kind, number, color, width_ix, geometry });
        true
    }

    /// Replace the draft's geometry (a drag moved it). Returns whether
    /// there is a draft; without one nothing changes.
    pub fn update_draft(&mut self, geometry: G) -> (r: bool)
        ensures
            old(self).wf() ==> final(self).wf(),
            r == (old(self)@.draft is Some),
            final(self)@ == (match old(self)@.draft {
                Some(d) => AnnotationsView { draft: Some(Mark { geometry, ..d }), ..old(self)@ },
                None => old(self)@,
            }),
    {
        match self.draft.take() {
            Some(d) => {
                self.draft = Some(Mark { kind: d.kind, number: d.number, color: d.color, width_ix: d.width_ix, geometry });
                true
            },
            None => false,
        }
    }

    /// Pointer up; `valid` says whether the draft's geometry is big enough
    /// to keep (lines at least 2 pixels long, boxes at least 2×2).
    pub fn end(&mut self, valid: bool)
        ensures
            old(self).wf() ==> final(self).wf(),
            final(self)@ == end_spec(old(self)@, valid),
    {
        if !self.pressed {
            return;
        }
        self.pressed = false;
        if self.is_drawing_polyline() {
            return;
        }
        if let Some(d) = self.draft.take() {
            if valid || d.kind == ShapeKind::Pencil || d.kind == ShapeKind::Highlighter {
                self.shapes.push(d);
                self.undone.clear();
            }
        }
    }

    /// Finish a polyline in progress: commit it with `trimmed` (its
    /// confirmed vertices, without the floating preview segment) when
    /// `keep` (at least two vertices), else drop it.
    pub fn finish_polyline(&mut self, trimmed: G, keep: bool)
        ensures
            old(self).wf() ==> final(self).wf(),
            final(self)@ == finish_polyline_spec(old(self)@, trimmed, keep),
    {
        if !self.is_drawing_polyline() {
            return;
        }
        self.pressed = false;
        if let Some(d) = self.draft.take() {
            if keep {
                self.shapes.push(Mark { kind: d.kind, number: d.number, color: d.color, width_ix: d.width_ix, geometry: trimmed });
                self.undone.clear();
            }
        }
    }
}


/// A polyline draft's confirmed vertices: its points without the last,
/// which is the floating preview under the cursor; and whether they still
/// make a line (at least two vertices). These are what
/// [`Annotations::finish_polyline`] takes.
pub fn confirmed_vertices<P>(points: Vec<P>) -> (r: (Vec<P>, bool))
    ensures
        r.0@ == (if points@.len() > 0 { points@.drop_last() } else { points@ }),
        r.1 == (r.0@.len() >= 2),
{
    let mut v = points;
    if v.len() > 0 {
        v.pop();
    }
    let keep = v.len() >= 2;
    (v, keep)
}

/// Undo discards a mark being drawn before anything else: while there is
/// a draft, undo drops only the draft and leaves every committed mark and
/// the redo stack as they were. Without a draft it moves exactly the
/// latest mark (if any) onto the redo stack.
pub proof fn lemma_undo_discards_the_draft_first<G>(v: AnnotationsView<G>)
    ensures
        v.draft is Some ==> {
            &&& undo_spec(v).draft is None
            &&& undo_spec(v).shapes == v.shapes
            &&& undo_spec(v).undone == v.undone
        },
        v.draft is None && v.shapes.len() > 0 ==> {
            &&& undo_spec(v).shapes.len() + 1 == v.shapes.len()
            &&& forall|i: int| 0 <= i < undo_spec(v).shapes.len() ==> undo_spec(v).shapes[i] == v.shapes[i]
            &&& undo_spec(v).undone.len() == v.undone.len() + 1
            &&& undo_spec(v).undone.last() == v.shapes.last()
        },
        undo_spec(v).tool == v.tool && undo_spec(v).color_ix == v.color_ix && undo_spec(v).width_ix == v.width_ix,
{
}

/// A new mark carries the style the user chose for its tool: its kind is
/// the active tool, its width is the chosen width (the highlighter's own
/// width for the highlighter, the shared width for every other tool), and
/// its geometry is the one the press gave.
pub proof fn lemma_new_mark_uses_the_chosen_width<G>(
    v: AnnotationsView<G>,
    inside: bool,
    room_for_badge: bool,
    palette_color: u32,
    geometry: G,
    kind: ShapeKind,
)
    requires
        styles_in_range(v),
        v.tool == Some(kind),
        v.draft is None,
        inside,
        kind != ShapeKind::Number || room_for_badge,
    ensures
        begin_spec(v, inside, room_for_badge, palette_color, geometry).draft matches Some(d) && {
            &&& d.kind == kind
            &&& d.width_ix as nat == (if kind == ShapeKind::Highlighter { v.highlighter_width_ix } else { v.width_ix })
            &&& d.geometry == geometry
        },
        begin_spec(v, inside, room_for_badge, palette_color, geometry).shapes == v.shapes,
{
}

/// Undo followed by redo gives back the marks and the redo stack (when
/// nothing is being drawn and there is a mark to undo).
pub proof fn lemma_undo_then_redo_restores<G>(v: AnnotationsView<G>)
    requires
        v.draft is None,
        v.shapes.len() > 0,
    ensures
        redo_spec(undo_spec(v)) == (AnnotationsView { pressed: false, ..v }),
{
    let u = undo_spec(v);
    assert(u.undone.last() == v.shapes.last());
    assert(u.shapes.push(u.undone.last()) =~= v.shapes);
    assert(u.undone.drop_last() =~= v.undone);
}

/// Redo followed by undo gives back the marks and the redo stack.
pub proof fn lemma_redo_then_undo_restores<G>(v: AnnotationsView<G>)
    requires
        v.draft is None,
        v.undone.len() > 0,
    ensures
        undo_spec(redo_spec(v)) == (AnnotationsView { pressed: false, ..v }),
{
    let r = redo_spec(v);
    assert(r.shapes.drop_last() =~= v.shapes);
    assert(r.undone.push(r.shapes.last()) =~= v.undone);
}

/// Committing a mark (any non-polyline draft released as valid, or any
/// freehand stroke) makes it the newest mark and clears the redo stack.
pub proof fn lemma_commit_clears_redo<G>(v: AnnotationsView<G>, valid: bool)
    requires
        v.pressed,
        v.draft matches Some(d) && d.kind != ShapeKind::Polyline
            && (valid || d.kind == ShapeKind::Pencil || d.kind == ShapeKind::Highlighter),
    ensures
        end_spec(v, valid).undone.len() == 0,
        end_spec(v, valid).shapes == v.shapes.push(v.draft->0),
        end_spec(v, valid).draft is None,
{
}

/// Badges count up: a badge numbered with the current next number makes
/// the next number one larger; any other mark leaves it unchanged.
pub proof fn lemma_badge_numbers_count_up<G>(marks: Seq<Mark<G>>, m: Mark<G>)
    ensures
        m.number == Some(next_number_spec(marks)) && next_number_spec(marks) < u32::MAX
            ==> next_number_spec(marks.push(m)) == next_number_spec(marks) + 1,
        m.number is None ==> next_number_spec(marks.push(m)) == next_number_spec(marks),
{
    assert(marks.push(m).drop_last() =~= marks);
}

/// Undoing the latest badge lets the next badge reuse its number; redo
/// brings the later numbering back.
pub proof fn lemma_undo_reuses_badge_number<G>(v: AnnotationsView<G>)
    requires
        v.draft is None,
        v.shapes.len() > 0,
        v.shapes.last().number == Some(next_number_spec(v.shapes.drop_last())),
    ensures
        Some(next_number_spec(undo_spec(v).shapes)) == v.shapes.last().number,
        next_number_spec(redo_spec(undo_spec(v)).shapes) == next_number_spec(v.shapes),
{
    lemma_undo_then_redo_restores(v);
}

/// With nothing committed (a fresh or reset state) the next badge is 1.
pub proof fn lemma_numbering_starts_at_one<G>(marks: Seq<Mark<G>>)
    requires
        marks.len() == 0,
    ensures
        next_number_spec(marks) == 1,
{
}

} // verus!
