//! What the editor does with pointer input: one entry point for each phase
//! of a gesture, each deciding by the current tool.
//!
//! Drawing collects the path and commits it on release. Erasing deletes the
//! stroke under the pointer. Selecting either drags the strokes it takes
//! hold of, or spans a rectangle that picks the strokes it touches. A drag
//! moves the strokes at once for the eye, but commits one `Move` for the
//! whole gesture when the pointer is released.

use vstd::prelude::*;
use crate::app::{executed, AppView, PaintApp};
use crate::geometry::{
    first_hit,
    first_within,
    lines_in_rect,
    rect_selection,
    stroke_rect,
    Rect,
    SELECT_RADIUS,
};
use crate::models::{
    clone_indices,
    stroke_of,
    ActionView,
    BrushMode,
    Line,
    LineView,
    PaintAction,
    Point,
    SerializableLine,
};
use crate::network::{ConnectionState, DrawingMessage, MessageView};
use crate::store::{move_all, move_back_batch, move_batch};
use crate::sync::{
    announcements,
    draw_line,
    draw_line_message,
    messages_view,
    nothing_to_send,
    sent,
};

verus! {

/// The rectangle drawn round the stroke at `index`; the empty rectangle
/// where there is no such stroke.
pub open spec fn line_rect(lines: Seq<LineView>, index: int) -> Rect {
    if 0 <= index < lines.len() {
        stroke_rect(lines[index])
    } else {
        Rect::empty()
    }
}

/// The first of the selected strokes whose rectangle holds `pos`.
pub open spec fn first_held(lines: Seq<LineView>, selected: Seq<usize>, pos: Point) -> Option<
    usize,
>
    decreases selected.len(),
{
    if selected.len() == 0 {
        None
    } else {
        match first_held(lines, selected.drop_last(), pos) {
            Some(index) => Some(index),
            None => if line_rect(lines, selected.last() as int).holds(pos) {
                Some(selected.last())
            } else {
                None
            },
        }
    }
}

/// The stroke that a drag starting at `pos` takes hold of: a selected stroke
/// whose rectangle holds `pos`, else the first stroke whose path is near.
pub open spec fn grabbed(app: AppView, pos: Point) -> Option<usize> {
    match first_held(app.lines, app.selected_indices, pos) {
        Some(index) => Some(index),
        None => first_within(app.lines, pos, SELECT_RADIUS as int),
    }
}

/// The action that erases the stroke at `index`: a `Delete` of that stroke,
/// which it keeps.
pub open spec fn erasure(app: AppView, index: usize) -> ActionView {
    ActionView::Delete(seq![index], seq![stroke_of(app.lines[index as int])])
}

/// The editor after the eraser touched `pos`: the first stroke whose path
/// is nearer than the brush size is deleted by a committed `Delete`.
pub open spec fn erased_at(app: AppView, pos: Point) -> AppView {
    match first_within(app.lines, pos, app.brush_size as int) {
        Some(index) => executed(app, erasure(app, index)),
        None => app,
    }
}

/// What is to be sent to the peers after the eraser touched `pos`.
pub open spec fn erase_sent(app: AppView, pos: Point) -> Seq<MessageView> {
    match first_within(app.lines, pos, app.brush_size as int) {
        Some(index) => sent(app, erasure(app, index)),
        None => Seq::empty(),
    }
}

/// What is to be sent to the peers after a move or a click of the pointer
/// at `pos`: only the eraser commits anything then.
pub open spec fn pointer_sent(app: AppView, pos: Point) -> Seq<MessageView> {
    if app.mode == BrushMode::Eraser {
        erase_sent(app, pos)
    } else {
        Seq::empty()
    }
}

/// The action that the release of the pointer commits, if it commits one:
/// the `Create` of the drawn stroke, or the one `Move` of a drag.
pub open spec fn release_action(app: AppView) -> Option<ActionView> {
    match app.mode {
        BrushMode::Freehand | BrushMode::StraightLine => if app.current_line.len() == 0 {
            None
        } else {
            Some(ActionView::Create(seq![stroke_of(drawn(app))]))
        },
        BrushMode::Eraser => None,
        BrushMode::Select => if app.is_dragging_items && app.drag_accumulated_delta != (
            0i32,
            0i32,
        ) {
            Some(
                ActionView::Move(
                    app.selected_indices,
                    app.drag_accumulated_delta.0 as int,
                    app.drag_accumulated_delta.1 as int,
                ),
            )
        } else {
            None
        },
    }
}

/// The message that the release of the pointer hands out: while the link is
/// up, the one announcement of the action it commits.
pub open spec fn release_message(app: AppView) -> Option<MessageView> {
    if app.network.state != ConnectionState::Connected {
        None
    } else {
        match release_action(app) {
            Some(ActionView::Create(strokes)) => Some(draw_line(strokes[0])),
            Some(ActionView::Move(indices, dx, dy)) => Some(
                MessageView::Move { indices, delta_x: dx, delta_y: dy },
            ),
            _ => None,
        }
    }
}

/// The release of the pointer hands out exactly what is to be sent for the
/// action it commits: one message for one gesture while the link is up,
/// none otherwise.
pub proof fn lemma_release_sends_announcement(app: AppView)
    ensures
        release_action(app) matches Some(action) ==> sent(app, action) == match release_message(
            app,
        ) {
            Some(message) => seq![message],
            None => Seq::empty(),
        },
        release_action(app) is None ==> release_message(app) is None,
{
    match release_action(app) {
        Some(ActionView::Create(strokes)) => {
            assert(announcements(ActionView::Create(strokes)) =~= seq![draw_line(strokes[0])]);
        },
        _ => {},
    }
}

/// The path of a straight line in progress after the pointer moved to
/// `pos`: its start, then `pos`.
pub open spec fn ruled(path: Seq<Point>, pos: Point) -> Seq<Point> {
    if path.len() == 0 {
        seq![pos, pos]
    } else if path.len() == 1 {
        path.push(pos)
    } else {
        path.drop_last().push(pos)
    }
}

/// The editor after a drag began at `pos`. Only selecting reacts: with a
/// stroke to take hold of, the gesture drags the selection, which becomes
/// that stroke alone unless it holds it already; without one, the gesture
/// spans a rectangle from `pos` and the selection is dropped.
pub open spec fn drag_begun(app: AppView, pos: Point) -> AppView {
    if app.mode != BrushMode::Select {
        app
    } else {
        match grabbed(app, pos) {
            Some(index) => AppView {
                selected_indices: if app.selected_indices.contains(index) {
                    app.selected_indices
                } else {
                    seq![index]
                },
                is_dragging_items: true,
                drag_accumulated_delta: (0i32, 0i32),
                ..app
            },
            None => AppView {
                selection_start_pos: Some(pos),
                selected_indices: Seq::empty(),
                ..app
            },
        }
    }
}

/// The editor after the pointer moved to `pos`, by `delta` since the last
/// move, during a drag.
pub open spec fn dragged_to(app: AppView, pos: Point, delta: (i32, i32)) -> AppView {
    match app.mode {
        BrushMode::Freehand => AppView { current_line: app.current_line.push(pos), ..app },
        BrushMode::StraightLine => AppView { current_line: ruled(app.current_line, pos), ..app },
        BrushMode::Eraser => erased_at(app, pos),
        BrushMode::Select => if app.is_dragging_items {
            let total = (Point {
                x: app.drag_accumulated_delta.0,
                y: app.drag_accumulated_delta.1,
            }).shifted(delta.0 as int, delta.1 as int);
            AppView {
                lines: move_all(app.lines, app.selected_indices, delta.0 as int, delta.1 as int),
                drag_accumulated_delta: (total.x, total.y),
                ..app
            }
        } else {
            match app.selection_start_pos {
                Some(start) => AppView {
                    selection_rect: Some(Rect::empty().extended(start).extended(pos)),
                    ..app
                },
                None => app,
            }
        },
    }
}

/// The editor after a click at `pos`: the eraser erases, the other tools
/// do nothing.
pub open spec fn clicked_at(app: AppView, pos: Point) -> AppView {
    if app.mode == BrushMode::Eraser {
        erased_at(app, pos)
    } else {
        app
    }
}

/// The stroke that the path in progress makes with the current brush.
pub open spec fn drawn(app: AppView) -> LineView {
    LineView { points: app.current_line, color: app.brush_color, width: app.brush_size }
}

/// The editor after the pointer was released at the end of a drag.
///
/// A drawing tool commits the path in progress, if there is one, as a
/// `Create`. A drag of strokes that moved them at all takes the moves made
/// for the eye back and commits one `Move` by the whole offset. A rectangle
/// makes the strokes that it touches the selection.
pub open spec fn drag_ended(app: AppView) -> AppView {
    match app.mode {
        BrushMode::Freehand | BrushMode::StraightLine => if app.current_line.len() == 0 {
            app
        } else {
            AppView {
                current_line: Seq::empty(),
                ..executed(app, ActionView::Create(seq![stroke_of(drawn(app))]))
            }
        },
        BrushMode::Eraser => app,
        BrushMode::Select => if app.is_dragging_items {
            let (dx, dy) = app.drag_accumulated_delta;
            if dx == 0 && dy == 0 {
                AppView { is_dragging_items: false, ..app }
            } else {
                AppView {
                    is_dragging_items: false,
                    ..executed(
                        AppView {
                            lines: move_all(
                                app.lines,
                                app.selected_indices,
                                -(dx as int),
                                -(dy as int),
                            ),
                            ..app
                        },
                        ActionView::Move(app.selected_indices, dx as int, dy as int),
                    )
                }
            }
        } else {
            match app.selection_rect {
                Some(rect) => AppView {
                    selection_rect: None,
                    selection_start_pos: None,
                    selected_indices: rect_selection(app.lines, rect),
                    ..app
                },
                None => app,
            }
        },
    }
}

/// The editor after the tool was changed: leaving the selection tool drops
/// the selection.
pub open spec fn mode_set(app: AppView, mode: BrushMode) -> AppView {
    if app.mode == BrushMode::Select && mode != BrushMode::Select {
        AppView { mode, selected_indices: Seq::empty(), ..app }
    } else {
        AppView { mode, ..app }
    }
}

/// While strokes are dragged, the drawing shows them moved from where they
/// stood when the drag began by the offset gathered so far.
pub open spec fn shows_drag(app: AppView, base: Seq<LineView>) -> bool {
    &&& app.mode == BrushMode::Select
    &&& app.is_dragging_items
    &&& app.lines == move_all(
        base,
        app.selected_indices,
        app.drag_accumulated_delta.0 as int,
        app.drag_accumulated_delta.1 as int,
    )
}

/// When the drag of strokes begins, the drawing shows them where they
/// stand.
pub proof fn lemma_drag_begins(app: AppView, pos: Point)
    requires
        app.mode == BrushMode::Select,
        grabbed(app, pos) is Some,
    ensures
        shows_drag(drag_begun(app, pos), app.lines),
{
    let begun = drag_begun(app, pos);
    assert forall|j: int| 0 <= j < app.lines.len() implies #[trigger] move_all(
        app.lines,
        begun.selected_indices,
        0,
        0,
    )[j] == app.lines[j] by {
        let n = crate::store::occurrences(begun.selected_indices, j);
        assert(n * 0 == 0) by (nonlinear_arith);
        crate::models::lemma_shift_zero(app.lines[j]);
    }
    assert(move_all(app.lines, begun.selected_indices, 0, 0) =~= app.lines);
}

/// Every move of the pointer during the drag keeps the drawing in step
/// with the offset gathered, and records nothing in the history.
pub proof fn lemma_drag_continues(app: AppView, base: Seq<LineView>, pos: Point, delta: (i32, i32))
    requires
        shows_drag(app, base),
    ensures
        shows_drag(dragged_to(app, pos, delta), base),
        dragged_to(app, pos, delta).undo_stack == app.undo_stack,
        dragged_to(app, pos, delta).redo_stack == app.redo_stack,
{
    let after = dragged_to(app, pos, delta);
    let (ax, ay) = app.drag_accumulated_delta;
    let (bx, by) = after.drag_accumulated_delta;
    let target = move_all(base, app.selected_indices, bx as int, by as int);
    assert(bx == crate::models::wrap_coord(ax + delta.0));
    assert(by == crate::models::wrap_coord(ay + delta.1));
    assert forall|j: int| 0 <= j < base.len() implies after.lines[j] == #[trigger] target[j] by {
        let n = crate::store::occurrences(app.selected_indices, j) as int;
        crate::models::lemma_shift_twice(base[j], n * ax, n * ay, n * delta.0, n * delta.1);
        assert(n * ax + n * delta.0 == n * (ax + delta.0) && n * ay + n * delta.1 == n * (ay
            + delta.1)) by (nonlinear_arith);
        let stepwise = base[j].shifted(n * (ax + delta.0), n * (ay + delta.1));
        let wrapped = base[j].shifted(n * bx, n * by);
        assert forall|k: int| 0 <= k < base[j].points.len() implies stepwise.points[k]
            == wrapped.points[k] by {
            crate::models::lemma_wrap_times(base[j].points[k].x as int, ax + delta.0, n);
            crate::models::lemma_wrap_times(base[j].points[k].y as int, ay + delta.1, n);
        }
        assert(stepwise.points =~= wrapped.points);
    }
    assert(after.lines =~= target);
}

/// Releasing the pointer after a drag that moved the strokes at all leaves
/// the drawing as it showed, commits exactly one `Move` for the whole
/// gesture, and taking that `Move` back puts the strokes where they stood
/// when the drag began.
pub proof fn lemma_drag_commits_once(app: AppView, base: Seq<LineView>)
    requires
        shows_drag(app, base),
        app.drag_accumulated_delta != (0i32, 0i32),
    ensures
        drag_ended(app).lines == app.lines,
        drag_ended(app).undo_stack == app.undo_stack.push(
            ActionView::Move(
                app.selected_indices,
                app.drag_accumulated_delta.0 as int,
                app.drag_accumulated_delta.1 as int,
            ),
        ),
        crate::app::undone(drag_ended(app)).lines == base,
{
    let action = ActionView::Move(
        app.selected_indices,
        app.drag_accumulated_delta.0 as int,
        app.drag_accumulated_delta.1 as int,
    );
    crate::history::lemma_reapply_repeats(base, action);
    crate::history::lemma_revert_restores(base, action);
}

/// Whether `index` is among `indices`.
fn contains_index(indices: &Vec<usize>, index: usize) -> (found: bool)
    ensures
        found == indices@.contains(index),
{
    let mut i: usize = 0;
    while i < indices.len()
        invariant
            i <= indices.len(),
            forall|j: int| 0 <= j < i ==> indices@[j] != index,
        decreases indices.len() - i,
    {
        if indices[i] == index {
            return true;
        }
        i += 1;
    }
    false
}

impl PaintApp {
    /// Changes the tool.
    pub fn set_mode(&mut self, mode: BrushMode)
        ensures
            final(self)@ == mode_set(old(self)@, mode),
    {
        let leaving = match self.mode {
            BrushMode::Select => match mode {
                BrushMode::Select => false,
                _ => true,
            },
            _ => false,
        };
        if leaving {
            self.selected_indices.clear();
            assert(self.selected_indices@ =~= Seq::empty());
        }
        self.mode = mode;
    }

    /// Finds the stroke that a drag starting at `pos` takes hold of.
    fn grab(&self, pos: Point) -> (found: Option<usize>)
        ensures
            found == grabbed(self@, pos),
    {
        let mut held: Option<usize> = None;
        let mut i: usize = 0;
        while i < self.selected_indices.len()
            invariant
                i <= self.selected_indices.len(),
                held == first_held(self@.lines, self.selected_indices@.take(i as int), pos),
            decreases self.selected_indices.len() - i,
        {
            assert(self.selected_indices@.take(i + 1).drop_last() == self.selected_indices@.take(
                i as int,
            ));
            if held.is_none() {
                let index = self.selected_indices[i];
                if self.get_line_rect(index).contains(pos) {
                    held = Some(index);
                }
            }
            i += 1;
        }
        assert(self.selected_indices@.take(i as int) == self.selected_indices@);
        match held {
            Some(index) => Some(index),
            None => first_hit(&self.lines, pos, SELECT_RADIUS),
        }
    }

    /// Deletes the first stroke whose path is nearer to `pos` than the
    /// brush size.
    fn erase_at(&mut self, pos: Point) -> (messages: Vec<DrawingMessage>)
        ensures
            final(self)@ == erased_at(old(self)@, pos),
            messages_view(messages@) == erase_sent(old(self)@, pos),
    {
        match first_hit(&self.lines, pos, self.brush_size) {
            Some(index) => {
                let stroke = SerializableLine::from(&self.lines[index]);
                let mut indices: Vec<usize> = Vec::new();
                indices.push(index);
                let mut strokes: Vec<SerializableLine> = Vec::new();
                strokes.push(stroke);
                assert(indices@ =~= seq![index]);
                assert(crate::models::strokes_view(strokes@) =~= seq![
                    stroke_of(self@.lines[index as int]),
                ]);
                self.commit(PaintAction::Delete(indices, strokes))
            },
            None => nothing_to_send(),
        }
    }

    /// The pointer went down and began to move at `pos`.
    pub fn drag_started(&mut self, pos: Point)
        ensures
            final(self)@ == drag_begun(old(self)@, pos),
    {
        match self.mode {
            BrushMode::Select => {
                match self.grab(pos) {
                    Some(index) => {
                        if !contains_index(&self.selected_indices, index) {
                            let mut only: Vec<usize> = Vec::new();
                            only.push(index);
                            assert(only@ =~= seq![index]);
                            self.selected_indices = only;
                        }
                        self.is_dragging_items = true;
                        self.drag_accumulated_delta = (0, 0);
                    },
                    None => {
                        self.selection_start_pos = Some(pos);
                        self.selected_indices.clear();
                        assert(self.selected_indices@ =~= Seq::empty());
                    },
                }
            },
            _ => {},
        }
    }

    /// The pointer moved to `pos`, by `delta` since its last move, while
    /// down. The result is what is to be sent to the peers for what the move
    /// committed.
    pub fn dragged(&mut self, pos: Point, delta: (i32, i32)) -> (messages: Vec<DrawingMessage>)
        ensures
            final(self)@ == dragged_to(old(self)@, pos, delta),
            messages_view(messages@) == pointer_sent(old(self)@, pos),
    {
        match self.mode {
            BrushMode::Freehand => {
                self.current_line.push(pos);
                nothing_to_send()
            },
            BrushMode::StraightLine => {
                let ghost before = self.current_line@;
                if self.current_line.len() == 0 {
                    self.current_line.push(pos);
                }
                if self.current_line.len() > 1 {
                    self.current_line.pop();
                }
                self.current_line.push(pos);
                assert(self.current_line@ =~= ruled(before, pos));
                nothing_to_send()
            },
            BrushMode::Eraser => self.erase_at(pos),
            BrushMode::Select => {
                if self.is_dragging_items {
                    let total = Point {
                        x: self.drag_accumulated_delta.0,
                        y: self.drag_accumulated_delta.1,
                    }.translate(delta.0, delta.1);
                    self.drag_accumulated_delta = (total.x, total.y);
                    move_batch(&mut self.lines, &self.selected_indices, delta.0, delta.1);
                } else {
                    match self.selection_start_pos {
                        Some(start) => {
                            self.selection_rect = Some(Rect::from_two_pos(start, pos));
                        },
                        None => {},
                    }
                }
                nothing_to_send()
            },
        }
    }

    /// The pointer went down and up at `pos` without moving. The result is
    /// what is to be sent to the peers for what the click committed.
    pub fn clicked(&mut self, pos: Point) -> (messages: Vec<DrawingMessage>)
        ensures
            final(self)@ == clicked_at(old(self)@, pos),
            messages_view(messages@) == pointer_sent(old(self)@, pos),
    {
        match self.mode {
            BrushMode::Eraser => self.erase_at(pos),
            _ => nothing_to_send(),
        }
    }

    /// The pointer was released at the end of a drag. Where this commits a
    /// drawn stroke, or the move of dragged strokes, while the link is up,
    /// the result is the one message that tells the peers; it is for the
    /// application to send.
    pub fn drag_released(&mut self) -> (message: Option<DrawingMessage>)
        ensures
            final(self)@ == drag_ended(old(self)@),
            match message {
                Some(m) => release_message(old(self)@) == Some(m@),
                None => release_message(old(self)@) is None,
            },
    {
        match self.mode {
            BrushMode::Freehand | BrushMode::StraightLine => {
                if self.current_line.len() == 0 {
                    return None;
                }
                let mut points: Vec<Point> = Vec::new();
                core::mem::swap(&mut points, &mut self.current_line);
                let line = Line { points, color: self.brush_color, width: self.brush_size };
                let stroke = SerializableLine::from(&line);
                let message = if self.network.is_connected() {
                    Some(draw_line_message(&stroke))
                } else {
                    None
                };
                let mut strokes: Vec<SerializableLine> = Vec::new();
                strokes.push(stroke);
                assert(crate::models::strokes_view(strokes@) =~= seq![stroke_of(drawn(old(self)@))]);
                self.execute(PaintAction::Create(strokes));
                message
            },
            BrushMode::Eraser => None,
            BrushMode::Select => {
                let mut message: Option<DrawingMessage> = None;
                if self.is_dragging_items {
                    let (dx, dy) = self.drag_accumulated_delta;
                    if dx != 0 || dy != 0 {
                        move_back_batch(&mut self.lines, &self.selected_indices, dx, dy);
                        if self.network.is_connected() {
                            message = Some(
                                DrawingMessage::Move {
                                    indices: clone_indices(&self.selected_indices),
                                    delta_x: dx,
                                    delta_y: dy,
                                },
                            );
                        }
                        let indices = clone_indices(&self.selected_indices);
                        self.execute(PaintAction::Move(indices, dx, dy));
                    }
                    self.is_dragging_items = false;
                } else {
                    match self.selection_rect {
                        Some(rect) => {
                            self.selection_rect = None;
                            self.selected_indices = lines_in_rect(&self.lines, &rect);
                            self.selection_start_pos = None;
                        },
                        None => {},
                    }
                }
                message
            },
        }
    }
}

} // verus!
