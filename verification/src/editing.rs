//! Edits that start from the selection: copy, paste, delete, and emptying
//! the drawing.

use vstd::prelude::*;
use crate::app::{executed, AppView, PaintApp};
use crate::history::faithful;
use crate::models::{
    clone_indices,
    lemma_line_round_trip,
    line_of,
    lines_of,
    lines_view,
    stroke_of,
    strokes_view,
    ActionView,
    Color,
    Line,
    LineView,
    PaintAction,
    SerializableLine,
    StrokeView,
};
use crate::network::{ConnectionState, DrawingMessage, MessageView};
use crate::order::{ascending, ascending_order, entries_view, keyed, lemma_ascending_keyed};
use crate::sync::{messages_view, nothing_to_send, sent};

verus! {

/// How far a pasted stroke lies from the one it was copied from, along each
/// axis.
pub const PASTE_OFFSET: i32 = 20;

/// Those of the indices that name a stroke of a drawing of `len` strokes,
/// in their order.
pub open spec fn in_range(indices: Seq<usize>, len: nat) -> Seq<usize>
    decreases indices.len(),
{
    if indices.len() == 0 {
        Seq::empty()
    } else if indices.last() < len {
        in_range(indices.drop_last(), len).push(indices.last())
    } else {
        in_range(indices.drop_last(), len)
    }
}

/// The strokes that the indices name, in the order of the indices.
pub open spec fn picked(lines: Seq<LineView>, indices: Seq<usize>) -> Seq<LineView> {
    in_range(indices, lines.len()).map_values(|i: usize| lines[i as int])
}

/// The wire forms of a list of strokes.
pub open spec fn strokes_of(lines: Seq<LineView>) -> Seq<StrokeView> {
    lines.map_values(|line: LineView| stroke_of(line))
}

/// The strokes moved by the paste offset.
pub open spec fn offset_copies(lines: Seq<LineView>) -> Seq<LineView> {
    lines.map_values(|line: LineView| line.shifted(PASTE_OFFSET as int, PASTE_OFFSET as int))
}

/// The editor after a copy: the clipboard holds the selected strokes. An
/// empty selection leaves the clipboard as it is.
pub open spec fn copied(app: AppView) -> AppView {
    if app.selected_indices.len() == 0 {
        app
    } else {
        AppView { clipboard: picked(app.lines, app.selected_indices), ..app }
    }
}

/// The action that a paste commits: a `Create` of the strokes of the
/// clipboard, moved by the paste offset.
pub open spec fn pasting(app: AppView) -> ActionView {
    ActionView::Create(strokes_of(offset_copies(app.clipboard)))
}

/// The action that empties the drawing: a `Delete` of every stroke, each
/// kept.
pub open spec fn clearing(app: AppView) -> ActionView {
    ActionView::Delete(Seq::new(app.lines.len(), |i: int| i as usize), strokes_of(app.lines))
}

/// The editor after a paste: the strokes of the clipboard, moved by the
/// paste offset, are appended by a committed `Create`; they replace the
/// clipboard, so that the next paste lands further on, and they become the
/// selection. An empty clipboard changes nothing.
pub open spec fn pasted(app: AppView) -> AppView {
    if app.clipboard.len() == 0 {
        app
    } else {
        let copies = offset_copies(app.clipboard);
        AppView {
            clipboard: copies,
            selected_indices: Seq::new(copies.len(), |i: int| (app.lines.len() + i) as usize),
            ..executed(app, pasting(app))
        }
    }
}

/// The indices of an ordered batch.
pub open spec fn indices_of(order: Seq<(int, int)>) -> Seq<usize> {
    order.map_values(|entry: (int, int)| entry.0 as usize)
}

/// The action that deletes the strokes at `targets`: the indices in
/// ascending order, each with the stroke that stands there.
pub open spec fn deletion(lines: Seq<LineView>, targets: Seq<usize>) -> ActionView {
    let indices = indices_of(ascending(keyed(targets)));
    ActionView::Delete(indices, indices.map_values(|i: usize| stroke_of(lines[i as int])))
}

/// The editor after the selected strokes were deleted by a committed
/// `Delete` and the selection was dropped. An empty selection changes
/// nothing.
pub open spec fn selection_deleted(app: AppView) -> AppView {
    if app.selected_indices.len() == 0 {
        app
    } else {
        AppView {
            selected_indices: Seq::empty(),
            ..executed(
                app,
                deletion(app.lines, in_range(app.selected_indices, app.lines.len())),
            )
        }
    }
}

/// The editor after all strokes were deleted by a committed `Delete` and the
/// selection was dropped. An empty drawing changes nothing.
pub open spec fn all_cleared(app: AppView) -> AppView {
    if app.lines.len() == 0 {
        app
    } else {
        AppView {
            selected_indices: Seq::empty(),
            ..executed(app, clearing(app))
        }
    }
}

/// The action that gives the strokes at `targets` the colour `color`.
pub open spec fn recolouring(lines: Seq<LineView>, targets: Seq<usize>, color: Color) -> ActionView {
    ActionView::Modify(
        targets,
        targets.map_values(|i: usize| stroke_of(lines[i as int])),
        targets.map_values(|i: usize| stroke_of(LineView { color, ..lines[i as int] })),
    )
}

/// The action that gives the strokes at `targets` the width `width`.
pub open spec fn resizing(lines: Seq<LineView>, targets: Seq<usize>, width: u32) -> ActionView {
    ActionView::Modify(
        targets,
        targets.map_values(|i: usize| stroke_of(lines[i as int])),
        targets.map_values(|i: usize| stroke_of(LineView { width, ..lines[i as int] })),
    )
}

/// The editor after the selected strokes got the brush colour by a
/// committed `Modify`. An empty selection changes nothing.
pub open spec fn selection_recoloured(app: AppView) -> AppView {
    if app.selected_indices.len() == 0 {
        app
    } else {
        executed(
            app,
            recolouring(
                app.lines,
                in_range(app.selected_indices, app.lines.len()),
                app.brush_color,
            ),
        )
    }
}

/// The editor after the selected strokes got the brush size as their width
/// by a committed `Modify`. An empty selection changes nothing.
pub open spec fn selection_resized(app: AppView) -> AppView {
    if app.selected_indices.len() == 0 {
        app
    } else {
        executed(
            app,
            resizing(app.lines, in_range(app.selected_indices, app.lines.len()), app.brush_size),
        )
    }
}

/// Every index that `in_range` keeps names a stroke.
pub proof fn lemma_in_range(indices: Seq<usize>, len: nat)
    ensures
        in_range(indices, len).len() <= indices.len(),
        forall|i: int|
            0 <= i < in_range(indices, len).len() ==> (#[trigger] in_range(indices, len)[i]) < len,
    decreases indices.len(),
{
    if indices.len() > 0 {
        lemma_in_range(indices.drop_last(), len);
    }
}

/// The action that deletes a set of strokes was built from the drawing, so
/// taking it back restores the drawing: the targets must name strokes and
/// name none twice.
pub proof fn lemma_deletion_faithful(lines: Seq<LineView>, targets: Seq<usize>)
    requires
        forall|i: int| 0 <= i < targets.len() ==> (#[trigger] targets[i]) < lines.len(),
        forall|i: int, j: int|
            0 <= i < j < targets.len() ==> #[trigger] targets[i] != #[trigger] targets[j],
    ensures
        faithful(deletion(lines, targets), lines),
{
    let sorted = ascending(keyed(targets));
    let indices = indices_of(sorted);
    let strokes = indices.map_values(|i: usize| stroke_of(lines[i as int]));
    lemma_ascending_keyed(targets);
    crate::order::lemma_ascending_strict(targets);
    assert forall|i: int| 0 <= i < indices.len() implies #[trigger] indices[i] < lines.len()
        && line_of(strokes[i]) == lines[indices[i] as int] by {
        assert(sorted[i].0 == targets[sorted[i].1]);
        lemma_line_round_trip(lines[indices[i] as int]);
    }
    assert forall|i: int, j: int| 0 <= i < j < indices.len() implies #[trigger] indices[i]
        != #[trigger] indices[j] by {
        assert(sorted[i].0 == targets[sorted[i].1]);
        assert(sorted[j].0 == targets[sorted[j].1]);
        assert(sorted[i].0 < sorted[j].0);
    }
}

/// Lists those of the indices that name a stroke of a drawing of `len`
/// strokes.
fn keep_in_range(indices: &Vec<usize>, len: usize) -> (kept: Vec<usize>)
    ensures
        kept@ == in_range(indices@, len as nat),
{
    let mut kept: Vec<usize> = Vec::new();
    let mut i: usize = 0;
    while i < indices.len()
        invariant
            i <= indices.len(),
            kept@ == in_range(indices@.take(i as int), len as nat),
        decreases indices.len() - i,
    {
        assert(indices@.take(i + 1).drop_last() == indices@.take(i as int));
        if indices[i] < len {
            kept.push(indices[i]);
        }
        i += 1;
    }
    assert(indices@.take(i as int) == indices@);
    kept
}

impl PaintApp {
    /// Copies the selected strokes to the clipboard.
    pub fn copy_selected(&mut self)
        ensures
            final(self)@ == copied(old(self)@),
    {
        if self.selected_indices.len() == 0 {
            return ;
        }
        let targets = keep_in_range(&self.selected_indices, self.lines.len());
        proof {
            lemma_in_range(self.selected_indices@, self.lines@.len());
        }
        let mut copies: Vec<Line> = Vec::new();
        let mut i: usize = 0;
        while i < targets.len()
            invariant
                i <= targets.len(),
                forall|k: int| 0 <= k < targets.len() ==> (#[trigger] targets[k]) < self.lines.len(),
                lines_view(copies@) == targets@.take(i as int).map_values(
                    |k: usize| lines_view(self.lines@)[k as int],
                ),
            decreases targets.len() - i,
        {
            let ghost before = lines_view(copies@);
            let line = self.lines[targets[i]].clone();
            copies.push(line);
            assert(lines_view(copies@) =~= before.push(line@));
            assert(lines_view(copies@) =~= targets@.take(i + 1).map_values(
                |k: usize| lines_view(self.lines@)[k as int],
            ));
            i += 1;
        }
        assert(targets@.take(i as int) == targets@);
        self.clipboard = copies;
    }

    /// Pastes the clipboard into the drawing, a little off from where the
    /// strokes were copied, and selects what was pasted. The result is what
    /// is to be sent to the peers for it.
    pub fn paste(&mut self) -> (messages: Vec<DrawingMessage>)
        ensures
            final(self)@ == pasted(old(self)@),
            messages_view(messages@) == if old(self)@.clipboard.len() == 0 {
                Seq::empty()
            } else {
                sent(old(self)@, pasting(old(self)@))
            },
    {
        if self.clipboard.len() == 0 {
            return nothing_to_send();
        }
        let ghost start = self@;
        let mut copies: Vec<Line> = Vec::new();
        let mut strokes: Vec<SerializableLine> = Vec::new();
        let mut i: usize = 0;
        while i < self.clipboard.len()
            invariant
                i <= self.clipboard.len(),
                self@ == start,
                lines_view(copies@) == offset_copies(start.clipboard.take(i as int)),
                strokes_view(strokes@) == strokes_of(offset_copies(start.clipboard.take(i as int))),
            decreases self.clipboard.len() - i,
        {
            let ghost copies_before = lines_view(copies@);
            let ghost strokes_before = strokes_view(strokes@);
            let mut line = self.clipboard[i].clone();
            line.translate(PASTE_OFFSET, PASTE_OFFSET);
            let stroke = SerializableLine::from(&line);
            strokes.push(stroke);
            copies.push(line);
            assert(lines_view(copies@) =~= copies_before.push(line@));
            assert(strokes_view(strokes@) =~= strokes_before.push(stroke@));
            assert(start.clipboard.take(i + 1) =~= start.clipboard.take(i as int).push(
                start.clipboard[i as int],
            ));
            assert(offset_copies(start.clipboard.take(i + 1)) =~= copies_before.push(line@));
            assert(strokes_of(offset_copies(start.clipboard.take(i + 1))) =~= strokes_before.push(
                stroke@,
            ));
            i += 1;
        }
        assert(start.clipboard.take(i as int) == start.clipboard);
        let count = copies.len();
        assert(count == start.clipboard.len());
        let messages = self.commit(PaintAction::Create(strokes));
        self.clipboard = copies;
        proof {
            let made = lines_of(strokes_of(offset_copies(start.clipboard)));
            assert(made.len() == count);
            assert(self@.lines.len() == start.lines.len() + count);
        }
        let first = self.lines.len() - count;
        let mut picked_up: Vec<usize> = Vec::new();
        let mut k: usize = 0;
        while k < count
            invariant
                k <= count,
                first + count == self.lines.len(),
                first == start.lines.len(),
                picked_up@ == Seq::new(k as nat, |j: int| (start.lines.len() + j) as usize),
            decreases count - k,
        {
            picked_up.push(first + k);
            assert(picked_up@ =~= Seq::new(
                (k + 1) as nat,
                |j: int| (start.lines.len() + j) as usize,
            ));
            k += 1;
        }
        self.selected_indices = picked_up;
        messages
    }

    /// Deletes the selected strokes and drops the selection. While the link
    /// is up, the result is the message that tells the peers; it is for the
    /// application to send.
    pub fn delete_selected(&mut self) -> (message: Option<DrawingMessage>)
        ensures
            final(self)@ == selection_deleted(old(self)@),
            message is Some <==> old(self)@.selected_indices.len() > 0 && old(self)@.network.state
                == ConnectionState::Connected,
            message matches Some(m) ==> deletion(
                old(self)@.lines,
                in_range(old(self)@.selected_indices, old(self)@.lines.len()),
            ) matches ActionView::Delete(indices, _) && m@ == (MessageView::Delete { indices }),
    {
        if self.selected_indices.len() == 0 {
            return None;
        }
        let targets = keep_in_range(&self.selected_indices, self.lines.len());
        proof {
            lemma_in_range(self.selected_indices@, self.lines@.len());
        }
        let (indices, strokes) = self.deletion_lists(&targets);
        let announced = clone_indices(&indices);
        self.execute(PaintAction::Delete(indices, strokes));
        self.selected_indices.clear();
        assert(self.selected_indices@ =~= Seq::empty());
        if self.network.is_connected() {
            Some(DrawingMessage::Delete { indices: announced })
        } else {
            None
        }
    }

    /// Deletes every stroke and drops the selection. The result is what is
    /// to be sent to the peers for it.
    pub fn clear_all(&mut self) -> (messages: Vec<DrawingMessage>)
        ensures
            final(self)@ == all_cleared(old(self)@),
            messages_view(messages@) == if old(self)@.lines.len() == 0 {
                Seq::empty()
            } else {
                sent(old(self)@, clearing(old(self)@))
            },
    {
        if self.lines.len() == 0 {
            return nothing_to_send();
        }
        let mut indices: Vec<usize> = Vec::new();
        let mut strokes: Vec<SerializableLine> = Vec::new();
        let mut i: usize = 0;
        while i < self.lines.len()
            invariant
                i <= self.lines.len(),
                self@ == old(self)@,
                indices@ == Seq::new(i as nat, |j: int| j as usize),
                strokes_view(strokes@) == strokes_of(self@.lines.take(i as int)),
            decreases self.lines.len() - i,
        {
            let ghost before = strokes_view(strokes@);
            let stroke = SerializableLine::from(&self.lines[i]);
            indices.push(i);
            strokes.push(stroke);
            assert(indices@ =~= Seq::new((i + 1) as nat, |j: int| j as usize));
            assert(strokes_view(strokes@) =~= before.push(stroke@));
            assert(strokes_of(self@.lines.take(i + 1)) =~= before.push(stroke@));
            i += 1;
        }
        assert(self@.lines.take(i as int) == self@.lines);
        let messages = self.commit(PaintAction::Delete(indices, strokes));
        self.selected_indices.clear();
        assert(self.selected_indices@ =~= Seq::empty());
        messages
    }

    /// Gives the selected strokes the brush colour. The result is what is
    /// to be sent to the peers for it.
    pub fn recolor_selected(&mut self) -> (messages: Vec<DrawingMessage>)
        ensures
            final(self)@ == selection_recoloured(old(self)@),
            messages_view(messages@) == if old(self)@.selected_indices.len() == 0 {
                Seq::empty()
            } else {
                sent(
                    old(self)@,
                    recolouring(
                        old(self)@.lines,
                        in_range(old(self)@.selected_indices, old(self)@.lines.len()),
                        old(self)@.brush_color,
                    ),
                )
            },
    {
        if self.selected_indices.len() == 0 {
            return nothing_to_send();
        }
        let targets = keep_in_range(&self.selected_indices, self.lines.len());
        proof {
            lemma_in_range(self.selected_indices@, self.lines@.len());
        }
        let mut old_strokes: Vec<SerializableLine> = Vec::new();
        let mut new_strokes: Vec<SerializableLine> = Vec::new();
        let mut i: usize = 0;
        while i < targets.len()
            invariant
                i <= targets.len(),
                self@ == old(self)@,
                forall|k: int| 0 <= k < targets.len() ==> (#[trigger] targets[k]) < self.lines.len(),
                strokes_view(old_strokes@) == targets@.take(i as int).map_values(
                    |k: usize| stroke_of(self@.lines[k as int]),
                ),
                strokes_view(new_strokes@) == targets@.take(i as int).map_values(
                    |k: usize|
                        stroke_of(LineView { color: self@.brush_color, ..self@.lines[k as int] }),
                ),
            decreases targets.len() - i,
        {
            let ghost old_before = strokes_view(old_strokes@);
            let ghost new_before = strokes_view(new_strokes@);
            let kept = SerializableLine::from(&self.lines[targets[i]]);
            let mut line = self.lines[targets[i]].clone();
            line.color = self.brush_color;
            let changed = SerializableLine::from(&line);
            old_strokes.push(kept);
            new_strokes.push(changed);
            assert(strokes_view(old_strokes@) =~= old_before.push(kept@));
            assert(strokes_view(new_strokes@) =~= new_before.push(changed@));
            assert(strokes_view(old_strokes@) =~= targets@.take(i + 1).map_values(
                |k: usize| stroke_of(self@.lines[k as int]),
            ));
            assert(strokes_view(new_strokes@) =~= targets@.take(i + 1).map_values(
                |k: usize| stroke_of(LineView { color: self@.brush_color, ..self@.lines[k as int] }),
            ));
            i += 1;
        }
        assert(targets@.take(i as int) == targets@);
        self.commit(PaintAction::Modify(targets, old_strokes, new_strokes))
    }

    /// Gives the selected strokes the brush size as their width. The result
    /// is what is to be sent to the peers for it.
    pub fn resize_selected(&mut self) -> (messages: Vec<DrawingMessage>)
        ensures
            final(self)@ == selection_resized(old(self)@),
            messages_view(messages@) == if old(self)@.selected_indices.len() == 0 {
                Seq::empty()
            } else {
                sent(
                    old(self)@,
                    resizing(
                        old(self)@.lines,
                        in_range(old(self)@.selected_indices, old(self)@.lines.len()),
                        old(self)@.brush_size,
                    ),
                )
            },
    {
        if self.selected_indices.len() == 0 {
            return nothing_to_send();
        }
        let targets = keep_in_range(&self.selected_indices, self.lines.len());
        proof {
            lemma_in_range(self.selected_indices@, self.lines@.len());
        }
        let mut old_strokes: Vec<SerializableLine> = Vec::new();
        let mut new_strokes: Vec<SerializableLine> = Vec::new();
        let mut i: usize = 0;
        while i < targets.len()
            invariant
                i <= targets.len(),
                self@ == old(self)@,
                forall|k: int| 0 <= k < targets.len() ==> (#[trigger] targets[k]) < self.lines.len(),
                strokes_view(old_strokes@) == targets@.take(i as int).map_values(
                    |k: usize| stroke_of(self@.lines[k as int]),
                ),
                strokes_view(new_strokes@) == targets@.take(i as int).map_values(
                    |k: usize|
                        stroke_of(LineView { width: self@.brush_size, ..self@.lines[k as int] }),
                ),
            decreases targets.len() - i,
        {
            let ghost old_before = strokes_view(old_strokes@);
            let ghost new_before = strokes_view(new_strokes@);
            let kept = SerializableLine::from(&self.lines[targets[i]]);
            let mut line = self.lines[targets[i]].clone();
            line.width = self.brush_size;
            let changed = SerializableLine::from(&line);
            old_strokes.push(kept);
            new_strokes.push(changed);
            assert(strokes_view(old_strokes@) =~= old_before.push(kept@));
            assert(strokes_view(new_strokes@) =~= new_before.push(changed@));
            assert(strokes_view(old_strokes@) =~= targets@.take(i + 1).map_values(
                |k: usize| stroke_of(self@.lines[k as int]),
            ));
            assert(strokes_view(new_strokes@) =~= targets@.take(i + 1).map_values(
                |k: usize| stroke_of(LineView { width: self@.brush_size, ..self@.lines[k as int] }),
            ));
            i += 1;
        }
        assert(targets@.take(i as int) == targets@);
        self.commit(PaintAction::Modify(targets, old_strokes, new_strokes))
    }

    /// Builds the lists of a `Delete` for the strokes at `targets`.
    fn deletion_lists(&self, targets: &Vec<usize>) -> (lists: (Vec<usize>, Vec<SerializableLine>))
        requires
            forall|i: int| 0 <= i < targets.len() ==> (#[trigger] targets[i]) < self.lines.len(),
        ensures
            ActionView::Delete(lists.0@, strokes_view(lists.1@)) == deletion(self@.lines, targets@),
    {
        let order = ascending_order(targets);
        proof {
            lemma_ascending_keyed(targets@);
        }
        let ghost sorted = ascending(keyed(targets@));
        let mut indices: Vec<usize> = Vec::new();
        let mut strokes: Vec<SerializableLine> = Vec::new();
        let mut i: usize = 0;
        while i < order.len()
            invariant
                i <= order.len(),
                order.len() == targets.len(),
                entries_view(order@) == sorted,
                sorted == ascending(keyed(targets@)),
                forall|k: int|
                    0 <= k < sorted.len() ==> 0 <= (#[trigger] sorted[k]).0 < self.lines.len(),
                indices@ == indices_of(sorted.take(i as int)),
                strokes_view(strokes@) == indices@.map_values(
                    |k: usize| stroke_of(self@.lines[k as int]),
                ),
            decreases order.len() - i,
        {
            let ghost indices_before = indices@;
            let ghost strokes_before = strokes_view(strokes@);
            let index = order[i].0;
            assert(entries_view(order@)[i as int].0 == index);
            let stroke = SerializableLine::from(&self.lines[index]);
            indices.push(index);
            strokes.push(stroke);
            assert(indices@ =~= indices_of(sorted.take(i + 1)));
            assert(strokes_view(strokes@) =~= strokes_before.push(stroke@));
            assert(strokes_view(strokes@) =~= indices@.map_values(
                |k: usize| stroke_of(self@.lines[k as int]),
            ));
            i += 1;
        }
        assert(sorted.take(i as int) == sorted);
        (indices, strokes)
    }
}

} // verus!
