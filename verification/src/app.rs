//! The editor: the drawing, its history of actions, the selection and the
//! clipboard.
//!
//! Every local edit goes through `execute`, which applies an action and
//! records it. `undo` and `redo` walk one timeline: a new edit after an undo
//! discards what could have been redone. Edits that come from peers are
//! applied to the drawing without being recorded, so `undo` takes back only
//! what the local user did.

use vstd::prelude::*;
use crate::geometry::{bounding_rect, stroke_rect, Rect};
use crate::history::{applied, faithful, reverted, well_formed};
use crate::models::{
    actions_view,
    lines_view,
    ActionView,
    BrushMode,
    Color,
    Line,
    LineView,
    PaintAction,
    Point,
};
use crate::network::{ConnectionState, NetworkManager, NetworkView};
use crate::store::{
    append_batch,
    drop_tail,
    insert_batch,
    move_back_batch,
    move_batch,
    remove_batch,
    replace_batch,
};

verus! {

/// The editor's whole state. The fields are open to the application that
/// paints them; edits of the drawing go through the methods.
pub struct PaintApp {
    pub lines: Vec<Line>,
    pub undo_stack: Vec<PaintAction>,
    pub redo_stack: Vec<PaintAction>,
    pub mode: BrushMode,
    pub brush_color: Color,
    pub brush_size: u32,
    pub current_line: Vec<Point>,
    pub selected_indices: Vec<usize>,
    pub selection_start_pos: Option<Point>,
    pub selection_rect: Option<Rect>,
    pub clipboard: Vec<Line>,
    pub is_dragging_items: bool,
    pub drag_accumulated_delta: (i32, i32),
    pub network: NetworkManager,
}

/// What a `PaintApp` is, mathematically.
pub struct AppView {
    pub lines: Seq<LineView>,
    pub undo_stack: Seq<ActionView>,
    pub redo_stack: Seq<ActionView>,
    pub mode: BrushMode,
    pub brush_color: Color,
    pub brush_size: u32,
    pub current_line: Seq<Point>,
    pub selected_indices: Seq<usize>,
    pub selection_start_pos: Option<Point>,
    pub selection_rect: Option<Rect>,
    pub clipboard: Seq<LineView>,
    pub is_dragging_items: bool,
    pub drag_accumulated_delta: (i32, i32),
    pub network: NetworkView,
}

impl View for PaintApp {
    type V = AppView;

    open spec fn view(&self) -> AppView {
        AppView {
            lines: lines_view(self.lines@),
            undo_stack: actions_view(self.undo_stack@),
            redo_stack: actions_view(self.redo_stack@),
            mode: self.mode,
            brush_color: self.brush_color,
            brush_size: self.brush_size,
            current_line: self.current_line@,
            selected_indices: self.selected_indices@,
            selection_start_pos: self.selection_start_pos,
            selection_rect: self.selection_rect,
            clipboard: lines_view(self.clipboard@),
            is_dragging_items: self.is_dragging_items,
            drag_accumulated_delta: self.drag_accumulated_delta,
            network: self.network@,
        }
    }
}

/// The editor after `action` was committed: applied to the drawing, put on
/// top of the undo stack, and everything that could be redone discarded.
pub open spec fn executed(app: AppView, action: ActionView) -> AppView {
    AppView {
        lines: applied(app.lines, action),
        undo_stack: app.undo_stack.push(action),
        redo_stack: Seq::empty(),
        ..app
    }
}

/// The editor after the latest action was taken back: the action moves from
/// the undo stack to the redo stack and the selection is dropped. With
/// nothing to take back the editor stays as it is.
pub open spec fn undone(app: AppView) -> AppView {
    if app.undo_stack.len() == 0 {
        app
    } else {
        AppView {
            lines: reverted(app.lines, app.undo_stack.last()),
            undo_stack: app.undo_stack.drop_last(),
            redo_stack: app.redo_stack.push(app.undo_stack.last()),
            selected_indices: Seq::empty(),
            ..app
        }
    }
}

/// The editor after the action taken back last was applied again: the
/// action moves back from the redo stack to the undo stack. With nothing to
/// apply again the editor stays as it is.
pub open spec fn redone(app: AppView) -> AppView {
    if app.redo_stack.len() == 0 {
        app
    } else {
        AppView {
            lines: applied(app.lines, app.redo_stack.last()),
            undo_stack: app.undo_stack.push(app.redo_stack.last()),
            redo_stack: app.redo_stack.drop_last(),
            ..app
        }
    }
}

/// The editor after each of the actions, in turn, was committed and at once
/// taken back.
pub open spec fn tried_each(app: AppView, actions: Seq<ActionView>) -> AppView
    decreases actions.len(),
{
    if actions.len() == 0 {
        app
    } else {
        undone(executed(tried_each(app, actions.drop_last()), actions.last()))
    }
}

/// An edit that is taken back right after it was committed leaves the
/// drawing and the undo stack as they were before it, provided the action
/// was built from the drawing it was committed on.
pub proof fn lemma_execute_undo_restores(app: AppView, action: ActionView)
    requires
        faithful(action, app.lines),
    ensures
        undone(executed(app, action)).lines == app.lines,
        undone(executed(app, action)).undo_stack == app.undo_stack,
{
    crate::history::lemma_revert_restores(app.lines, action);
    assert(app.undo_stack.push(action).drop_last() =~= app.undo_stack);
}

/// Any number of edits, each taken back right after it was committed, leave
/// the drawing and the undo stack as they were at the start, provided each
/// action was built from that drawing.
pub proof fn lemma_execute_undo_sequence(app: AppView, actions: Seq<ActionView>)
    requires
        forall|i: int| 0 <= i < actions.len() ==> faithful(#[trigger] actions[i], app.lines),
    ensures
        tried_each(app, actions).lines == app.lines,
        tried_each(app, actions).undo_stack == app.undo_stack,
    decreases actions.len(),
{
    if actions.len() > 0 {
        let earlier = actions.drop_last();
        assert forall|i: int| 0 <= i < earlier.len() implies faithful(
            #[trigger] earlier[i],
            app.lines,
        ) by {
            assert(earlier[i] == actions[i]);
        }
        lemma_execute_undo_sequence(app, earlier);
        assert(faithful(actions[actions.len() - 1], app.lines));
        lemma_execute_undo_restores(tried_each(app, earlier), actions.last());
    }
}

/// Redo after undo brings back exactly the editor that the edit had left,
/// but for the selection, which undo drops.
pub proof fn lemma_undo_redo_repeats(app: AppView, action: ActionView)
    requires
        well_formed(action),
    ensures
        redone(undone(executed(app, action))) == (AppView {
            selected_indices: Seq::empty(),
            ..executed(app, action)
        }),
{
    crate::history::lemma_reapply_repeats(app.lines, action);
    let after = executed(app, action);
    let back = undone(after);
    assert(after.undo_stack.drop_last() =~= app.undo_stack);
    assert(back.redo_stack =~= seq![action]);
    assert(back.redo_stack.drop_last() =~= Seq::<ActionView>::empty());
    assert(redone(back).redo_stack =~= after.redo_stack);
}

/// A new edit discards what could have been redone: after it, redo changes
/// nothing, whatever had been taken back before.
pub proof fn lemma_execute_discards_redo(app: AppView, action: ActionView)
    ensures
        redone(executed(app, action)) == executed(app, action),
{
}

impl Default for PaintApp {
    /// An editor with an empty drawing and no history, a blue freehand brush
    /// four units wide, and the link down.
    fn default() -> (app: Self)
        ensures
            app@ == (AppView {
                lines: Seq::empty(),
                undo_stack: Seq::empty(),
                redo_stack: Seq::empty(),
                mode: BrushMode::Freehand,
                brush_color: Color { r: 0, g: 150, b: 255, a: 255 },
                brush_size: 4,
                current_line: Seq::empty(),
                selected_indices: Seq::empty(),
                selection_start_pos: None,
                selection_rect: None,
                clipboard: Seq::empty(),
                is_dragging_items: false,
                drag_accumulated_delta: (0i32, 0i32),
                network: NetworkView {
                    state: ConnectionState::Disconnected,
                    peer_count: 0,
                    events: Seq::empty(),
                },
            }),
    {
        let app = PaintApp {
            lines: Vec::new(),
            undo_stack: Vec::new(),
            redo_stack: Vec::new(),
            mode: BrushMode::Freehand,
            brush_color: Color::from_rgb(0, 150, 255),
            brush_size: 4,
            current_line: Vec::new(),
            selected_indices: Vec::new(),
            selection_start_pos: None,
            selection_rect: None,
            clipboard: Vec::new(),
            is_dragging_items: false,
            drag_accumulated_delta: (0, 0),
            network: NetworkManager::new(),
        };
        assert(app@.lines =~= Seq::empty());
        assert(app@.undo_stack =~= Seq::empty());
        assert(app@.redo_stack =~= Seq::empty());
        assert(app@.clipboard =~= Seq::empty());
        app
    }
}

impl PaintApp {
    /// Commits a local edit: applies it, records it, and discards what could
    /// have been redone.
    pub fn execute(&mut self, action: PaintAction)
        ensures
            final(self)@ == executed(old(self)@, action@),
    {
        self.apply_action(&action);
        let ghost before = actions_view(self.undo_stack@);
        self.undo_stack.push(action);
        self.redo_stack.clear();
        assert(actions_view(self.undo_stack@) =~= before.push(action@));
        assert(actions_view(self.redo_stack@) =~= Seq::empty());
    }

    /// Applies an action to the drawing and to nothing else.
    pub fn apply_action(&mut self, action: &PaintAction)
        ensures
            final(self)@ == (AppView { lines: applied(old(self)@.lines, action@), ..old(self)@ }),
    {
        match action {
            PaintAction::Create(strokes) => {
                append_batch(&mut self.lines, strokes);
            },
            PaintAction::Delete(indices, _) => {
                remove_batch(&mut self.lines, indices);
            },
            PaintAction::Modify(indices, _, new_strokes) => {
                replace_batch(&mut self.lines, indices, new_strokes);
            },
            PaintAction::Move(indices, dx, dy) => {
                move_batch(&mut self.lines, indices, *dx, *dy);
            },
        }
    }

    /// Takes the latest committed edit back and drops the selection. With
    /// nothing to take back, nothing happens.
    ///
    /// A `Create` is taken back by removing strokes from the end of the
    /// drawing. If strokes were appended after it without going through the
    /// history, as those from peers are, these are the ones removed.
    pub fn undo(&mut self)
        ensures
            final(self)@ == undone(old(self)@),
    {
        let ghost stack = actions_view(self.undo_stack@);
        match self.undo_stack.pop() {
            Some(action) => {
                assert(action@ == stack.last());
                assert(actions_view(self.undo_stack@) =~= stack.drop_last());
                match &action {
                    PaintAction::Create(strokes) => {
                        drop_tail(&mut self.lines, strokes.len());
                    },
                    PaintAction::Delete(indices, strokes) => {
                        insert_batch(&mut self.lines, indices, strokes);
                    },
                    PaintAction::Modify(indices, old_strokes, _) => {
                        replace_batch(&mut self.lines, indices, old_strokes);
                    },
                    PaintAction::Move(indices, dx, dy) => {
                        move_back_batch(&mut self.lines, indices, *dx, *dy);
                    },
                }
                let ghost redo = actions_view(self.redo_stack@);
                self.redo_stack.push(action);
                self.selected_indices.clear();
                assert(actions_view(self.redo_stack@) =~= redo.push(action@));
                assert(self.selected_indices@ =~= Seq::empty());
            },
            None => {
                assert(actions_view(self.undo_stack@) =~= stack);
            },
        }
    }

    /// Applies again the edit that was taken back last. With nothing to
    /// apply again, nothing happens.
    pub fn redo(&mut self)
        ensures
            final(self)@ == redone(old(self)@),
    {
        let ghost stack = actions_view(self.redo_stack@);
        match self.redo_stack.pop() {
            Some(action) => {
                assert(action@ == stack.last());
                assert(actions_view(self.redo_stack@) =~= stack.drop_last());
                self.apply_action(&action);
                let ghost undo = actions_view(self.undo_stack@);
                self.undo_stack.push(action);
                assert(actions_view(self.undo_stack@) =~= undo.push(action@));
            },
            None => {
                assert(actions_view(self.redo_stack@) =~= stack);
            },
        }
    }

    /// The rectangle drawn round the stroke at `idx`; the empty rectangle if
    /// there is no such stroke.
    pub fn get_line_rect(&self, idx: usize) -> (r: Rect)
        ensures
            r == if idx < self@.lines.len() {
                stroke_rect(self@.lines[idx as int])
            } else {
                Rect::empty()
            },
    {
        if idx < self.lines.len() {
            bounding_rect(&self.lines[idx])
        } else {
            Rect::nothing()
        }
    }
}

} // verus!
