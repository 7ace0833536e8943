//! What an action does to the drawing, what taking it back does, and the
//! laws that connect the two.

use vstd::prelude::*;
use crate::models::{lemma_shift_twice, lemma_shift_zero, line_of, lines_of, ActionView, LineView};
use crate::order::{ascending, keyed, lemma_ascending_keyed, lemma_ascending_strict};
use crate::store::{
    insert_all,
    lemma_insert_all_undoes_remove_all,
    lemma_last_position_of,
    lemma_remove_all_undoes_insert_all,
    move_all,
    occurrences,
    paired,
    remove_all,
    replace_all,
    shortened,
};

verus! {

/// The drawing after `action` was applied to `store`.
///
/// `Create` appends its strokes. `Delete` removes at its indices, highest
/// first. `Modify` puts its new strokes at its indices. `Move` shifts the
/// strokes at its indices. An index that names no stroke is passed over.
pub open spec fn applied(store: Seq<LineView>, action: ActionView) -> Seq<LineView> {
    match action {
        ActionView::Create(strokes) => store + lines_of(strokes),
        ActionView::Delete(indices, _) => remove_all(store, ascending(keyed(indices))),
        ActionView::Modify(indices, _, new_strokes) => replace_all(
            store,
            indices,
            lines_of(new_strokes),
        ),
        ActionView::Move(indices, dx, dy) => move_all(store, indices, dx, dy),
    }
}

/// The drawing after `action` was taken back from `store`.
///
/// `Create` loses as many strokes from the end as it had appended. `Delete`
/// gets its kept strokes back at their indices, lowest first. `Modify` puts
/// its old strokes at its indices. `Move` shifts by the opposite offset.
///
/// A `Create` does not remember which strokes are its own. Taken back from
/// a drawing to which something was appended after it, by a paste or by a
/// peer, it removes what was appended last; `lemma_revert_after_append`
/// says so exactly.
pub open spec fn reverted(store: Seq<LineView>, action: ActionView) -> Seq<LineView> {
    match action {
        ActionView::Create(strokes) => store.take(shortened(store.len(), strokes.len())),
        ActionView::Delete(indices, strokes) => insert_all(
            store,
            ascending(keyed(indices.take(paired(indices, strokes.len() as int)))),
            lines_of(strokes),
        ),
        ActionView::Modify(indices, old_strokes, _) => replace_all(
            store,
            indices,
            lines_of(old_strokes),
        ),
        ActionView::Move(indices, dx, dy) => move_all(store, indices, -dx, -dy),
    }
}

/// The lists of an action have matching lengths: one kept stroke for every
/// index of a `Delete`, one old and one new stroke for every index of a
/// `Modify`.
pub open spec fn well_formed(action: ActionView) -> bool {
    match action {
        ActionView::Create(_) => true,
        ActionView::Delete(indices, strokes) => indices.len() == strokes.len(),
        ActionView::Modify(indices, old_strokes, new_strokes) => indices.len() == old_strokes.len()
            && indices.len() == new_strokes.len(),
        ActionView::Move(_, _, _) => true,
    }
}

/// The action was built from `store`: it is well-formed, the strokes that a
/// `Delete` or `Modify` keeps are those that stand at its indices in
/// `store`, and a `Delete` names each of its strokes once.
pub open spec fn faithful(action: ActionView, store: Seq<LineView>) -> bool {
    &&& well_formed(action)
    &&& match action {
        ActionView::Create(_) => true,
        ActionView::Delete(indices, strokes) => {
            &&& forall|i: int|
                0 <= i < indices.len() ==> #[trigger] indices[i] < store.len() && line_of(
                    strokes[i],
                ) == store[indices[i] as int]
            &&& forall|i: int, j: int|
                0 <= i < j < indices.len() ==> #[trigger] indices[i] != #[trigger] indices[j]
        },
        ActionView::Modify(indices, old_strokes, _) => forall|i: int|
            0 <= i < indices.len() && #[trigger] indices[i] < store.len() ==> line_of(
                old_strokes[i],
            ) == store[indices[i] as int],
        ActionView::Move(_, _, _) => true,
    }
}

/// Taking back an action right after applying it restores the drawing,
/// provided the action was built from that drawing.
pub proof fn lemma_revert_restores(store: Seq<LineView>, action: ActionView)
    requires
        faithful(action, store),
    ensures
        reverted(applied(store, action), action) == store,
{
    match action {
        ActionView::Create(strokes) => {
            assert((store + lines_of(strokes)).take(store.len() as int) =~= store);
        },
        ActionView::Delete(indices, strokes) => {
            let order = ascending(keyed(indices));
            assert(indices.take(indices.len() as int) == indices);
            lemma_ascending_keyed(indices);
            lemma_ascending_strict(indices);
            lemma_insert_all_undoes_remove_all(store, order, lines_of(strokes));
        },
        ActionView::Modify(indices, old_strokes, new_strokes) => {
            let after = replace_all(store, indices, lines_of(new_strokes));
            let back = replace_all(after, indices, lines_of(old_strokes));
            assert(indices.take(indices.len() as int) == indices);
            assert forall|j: int| 0 <= j < store.len() implies #[trigger] back[j] == store[j] by {
                lemma_last_position_of(indices, j);
            }
            assert(back =~= store);
        },
        ActionView::Move(indices, dx, dy) => {
            let after = move_all(store, indices, dx, dy);
            let back = move_all(after, indices, -dx, -dy);
            assert forall|j: int| 0 <= j < store.len() implies #[trigger] back[j] == store[j] by {
                let n = occurrences(indices, j);
                lemma_shift_twice(store[j], n * dx, n * dy, n * -dx, n * -dy);
                assert(n * dx + n * -dx == 0 && n * dy + n * -dy == 0) by (nonlinear_arith);
                lemma_shift_zero(store[j]);
            }
            assert(back =~= store);
        },
    }
}

/// Where strokes were appended after a `Create`, taking the `Create` back
/// removes from among those: what remains are the drawing before the
/// `Create`, its own strokes, and the appended ones shortened from the end
/// by the number of strokes that the `Create` had made.
pub proof fn lemma_revert_after_append(
    store: Seq<LineView>,
    strokes: Seq<crate::models::StrokeView>,
    later: Seq<LineView>,
)
    requires
        strokes.len() <= later.len(),
    ensures
        reverted(applied(store, ActionView::Create(strokes)) + later, ActionView::Create(strokes))
            == store + lines_of(strokes) + later.take(later.len() - strokes.len()),
{
    let grown = applied(store, ActionView::Create(strokes)) + later;
    assert(grown.take(shortened(grown.len(), strokes.len())) =~= store + lines_of(strokes)
        + later.take(later.len() - strokes.len()));
}

/// Applying an action again after taking it back gives exactly the drawing
/// that the first application gave.
pub proof fn lemma_reapply_repeats(store: Seq<LineView>, action: ActionView)
    requires
        well_formed(action),
    ensures
        applied(reverted(applied(store, action), action), action) == applied(store, action),
{
    let once = applied(store, action);
    match action {
        ActionView::Create(strokes) => {
            assert(once.take(store.len() as int) =~= store);
        },
        ActionView::Delete(indices, strokes) => {
            assert(indices.take(indices.len() as int) == indices);
            lemma_remove_all_undoes_insert_all(once, ascending(keyed(indices)), lines_of(strokes));
        },
        ActionView::Modify(indices, old_strokes, new_strokes) => {
            let back = replace_all(once, indices, lines_of(old_strokes));
            let again = replace_all(back, indices, lines_of(new_strokes));
            assert(again =~= once);
        },
        ActionView::Move(indices, dx, dy) => {
            let back = move_all(once, indices, -dx, -dy);
            let again = move_all(back, indices, dx, dy);
            assert forall|j: int| 0 <= j < once.len() implies #[trigger] again[j] == once[j] by {
                let n = occurrences(indices, j);
                lemma_shift_twice(once[j], n * -dx, n * -dy, n * dx, n * dy);
                assert(n * -dx + n * dx == 0 && n * -dy + n * dy == 0) by (nonlinear_arith);
                lemma_shift_zero(once[j]);
            }
            assert(again =~= once);
        },
    }
}

} // verus!
