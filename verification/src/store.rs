//! The drawing store: an ordered list of strokes addressed by position.
//!
//! Every operation that is handed a position outside the list leaves the
//! list as it is. That keeps undo, redo and edits from peers harmless when
//! they refer to a drawing that has meanwhile changed.

use vstd::prelude::*;
use crate::models::{
    clone_indices,
    lines_of,
    lines_view,
    strokes_view,
    Line,
    LineView,
    SerializableLine,
};
use crate::order::{ascending, ascending_order, entries_view, keyed};

verus! {

/// The list without the item at `k`; the list itself if there is none.
pub open spec fn remove_if<T>(s: Seq<T>, k: int) -> Seq<T> {
    if 0 <= k < s.len() {
        s.remove(k)
    } else {
        s
    }
}

/// The list with `x` put at `k`, where `k` may be the end of the list; the
/// list itself if `k` lies beyond the end.
pub open spec fn insert_if<T>(s: Seq<T>, k: int, x: T) -> Seq<T> {
    if 0 <= k <= s.len() {
        s.insert(k, x)
    } else {
        s
    }
}

/// The list with the item at `k` replaced by `x`; the list itself if there
/// is no such item.
pub open spec fn replace_if<T>(s: Seq<T>, k: int, x: T) -> Seq<T> {
    if 0 <= k < s.len() {
        s.update(k, x)
    } else {
        s
    }
}

/// Removes at the index of every entry, starting with the last entry and
/// ending with the first.
pub open spec fn remove_all<T>(s: Seq<T>, order: Seq<(int, int)>) -> Seq<T>
    decreases order.len(),
{
    if order.len() == 0 {
        s
    } else {
        remove_all(remove_if(s, order.last().0), order.drop_last())
    }
}

/// Inserts for every entry `(index, position)` the item `items[position]` at
/// `index`, starting with the first entry and ending with the last.
pub open spec fn insert_all<T>(s: Seq<T>, order: Seq<(int, int)>, items: Seq<T>) -> Seq<T>
    decreases order.len(),
{
    if order.len() == 0 {
        s
    } else {
        let (index, position) = order.last();
        insert_if(insert_all(s, order.drop_last(), items), index, items[position])
    }
}

/// The removal for the first entry is the one that `remove_all` does last.
pub proof fn lemma_remove_all_front<T>(s: Seq<T>, order: Seq<(int, int)>)
    requires
        order.len() > 0,
    ensures
        remove_all(s, order) == remove_if(remove_all(s, order.drop_first()), order[0].0),
    decreases order.len(),
{
    let reduced = remove_if(s, order.last().0);
    assert(remove_all(s, order) == remove_all(reduced, order.drop_last()));
    if order.len() == 1 {
        assert(remove_all(reduced, order.drop_last()) == reduced);
        assert(remove_all(s, order.drop_first()) == s);
    } else {
        let rest = order.drop_first();
        lemma_remove_all_front(reduced, order.drop_last());
        assert(order.drop_last().drop_first() == rest.drop_last());
        assert(rest.last() == order.last());
        assert(order.drop_last()[0] == order[0]);
        assert(remove_all(s, rest) == remove_all(reduced, rest.drop_last()));
    }
}

/// The insertion for the first entry is the one that `insert_all` does
/// first.
pub proof fn lemma_insert_all_front<T>(s: Seq<T>, order: Seq<(int, int)>, items: Seq<T>)
    requires
        order.len() > 0,
    ensures
        insert_all(s, order, items) == insert_all(
            insert_if(s, order[0].0, items[order[0].1]),
            order.drop_first(),
            items,
        ),
    decreases order.len(),
{
    let (index, position) = order.last();
    let first = insert_if(s, order[0].0, items[order[0].1]);
    assert(insert_all(s, order, items) == insert_if(
        insert_all(s, order.drop_last(), items),
        index,
        items[position],
    ));
    if order.len() == 1 {
        assert(insert_all(s, order.drop_last(), items) == s);
        assert(insert_all(first, order.drop_first(), items) == first);
    } else {
        let rest = order.drop_first();
        lemma_insert_all_front(s, order.drop_last(), items);
        assert(order.drop_last().drop_first() == rest.drop_last());
        assert(rest.last() == order.last());
        assert(order.drop_last()[0] == order[0]);
        assert(insert_all(first, rest, items) == insert_if(
            insert_all(first, rest.drop_last(), items),
            index,
            items[position],
        ));
    }
}

/// Removing at indices above `k` leaves the items up to and including `k`
/// in place.
pub proof fn lemma_remove_all_keeps_prefix<T>(s: Seq<T>, order: Seq<(int, int)>, k: int)
    requires
        0 <= k < s.len(),
        forall|i: int| 0 <= i < order.len() ==> (#[trigger] order[i]).0 > k,
    ensures
        remove_all(s, order).len() > k,
        forall|j: int| 0 <= j <= k ==> #[trigger] remove_all(s, order)[j] == s[j],
    decreases order.len(),
{
    if order.len() > 0 {
        let reduced = remove_if(s, order.last().0);
        assert(order.last() == order[order.len() - 1]);
        assert forall|i: int| 0 <= i < order.drop_last().len() implies (
        #[trigger] order.drop_last()[i]).0 > k by {
            assert(order.drop_last()[i] == order[i]);
        }
        lemma_remove_all_keeps_prefix(reduced, order.drop_last(), k);
    }
}

/// Removing in descending order takes back what inserting in ascending
/// order did, whatever the list, the entries and the items are.
pub proof fn lemma_remove_all_undoes_insert_all<T>(
    s: Seq<T>,
    order: Seq<(int, int)>,
    items: Seq<T>,
)
    ensures
        remove_all(insert_all(s, order, items), order) == s,
    decreases order.len(),
{
    if order.len() > 0 {
        let (index, position) = order.last();
        let before = insert_all(s, order.drop_last(), items);
        assert(remove_if(insert_if(before, index, items[position]), index) =~= before);
        lemma_remove_all_undoes_insert_all(s, order.drop_last(), items);
    }
}

/// Inserting in ascending order restores what removing in descending order
/// took away, provided the indices are distinct and in range and each item
/// is the one that stood at its index.
pub proof fn lemma_insert_all_undoes_remove_all<T>(
    s: Seq<T>,
    order: Seq<(int, int)>,
    items: Seq<T>,
)
    requires
        forall|i: int, j: int|
            0 <= i < j < order.len() ==> (#[trigger] order[i]).0 < (#[trigger] order[j]).0,
        forall|i: int|
            0 <= i < order.len() ==> 0 <= (#[trigger] order[i]).0 < s.len() && 0 <= order[i].1
                < items.len() && items[order[i].1] == s[order[i].0],
    ensures
        insert_all(remove_all(s, order), order, items) == s,
    decreases order.len(),
{
    if order.len() > 0 {
        let rest = order.drop_first();
        let index = order[0].0;
        let item = items[order[0].1];
        assert forall|i: int| 0 <= i < rest.len() implies (#[trigger] rest[i]).0 > index by {
            assert(rest[i] == order[i + 1]);
        }
        assert forall|i: int, j: int| 0 <= i < j < rest.len() implies (#[trigger] rest[i]).0 < (
        #[trigger] rest[j]).0 by {
            assert(rest[i] == order[i + 1]);
            assert(rest[j] == order[j + 1]);
        }
        assert forall|i: int| 0 <= i < rest.len() implies 0 <= (#[trigger] rest[i]).0 < s.len() && 0
            <= rest[i].1 < items.len() && items[rest[i].1] == s[rest[i].0] by {
            assert(rest[i] == order[i + 1]);
        }
        let kept = remove_all(s, rest);
        lemma_remove_all_keeps_prefix(s, rest, index);
        lemma_remove_all_front(s, order);
        assert(remove_all(s, order) == kept.remove(index));
        assert(insert_if(kept.remove(index), index, item) =~= kept);
        lemma_insert_all_front(remove_all(s, order), order, items);
        lemma_insert_all_undoes_remove_all(s, rest, items);
    }
}

/// Puts `line` at `index`, moving the strokes from there on one place up.
/// An index beyond the end of the drawing changes nothing.
pub fn insert_at(lines: &mut Vec<Line>, index: usize, line: Line)
    ensures
        lines_view(final(lines)@) == insert_if(lines_view(old(lines)@), index as int, line@),
{
    if index <= lines.len() {
        lines.insert(index, line);
        assert(lines_view(lines@) =~= lines_view(old(lines)@).insert(index as int, line@));
    }
}

/// Takes the stroke at `index` out of the drawing. An index that names no
/// stroke changes nothing.
pub fn remove_at(lines: &mut Vec<Line>, index: usize)
    ensures
        lines_view(final(lines)@) == remove_if(lines_view(old(lines)@), index as int),
{
    if index < lines.len() {
        lines.remove(index);
        assert(lines_view(lines@) =~= lines_view(old(lines)@).remove(index as int));
    }
}

/// Puts `line` in the place of the stroke at `index`. An index that names no
/// stroke changes nothing.
pub fn replace_at(lines: &mut Vec<Line>, index: usize, line: Line)
    ensures
        lines_view(final(lines)@) == replace_if(lines_view(old(lines)@), index as int, line@),
{
    if index < lines.len() {
        lines[index] = line;
        assert(lines_view(lines@) =~= lines_view(old(lines)@).update(index as int, line@));
    }
}

/// How many strokes remain when `count` are taken from the end of a drawing
/// of `len` strokes.
pub open spec fn shortened(len: nat, count: nat) -> int {
    if count <= len {
        len - count
    } else {
        0
    }
}

/// Appends the strokes that the wire forms stand for, in their order.
pub fn append_batch(lines: &mut Vec<Line>, strokes: &Vec<SerializableLine>)
    ensures
        lines_view(final(lines)@) == lines_view(old(lines)@) + lines_of(strokes_view(strokes@)),
{
    let ghost start = lines_view(lines@);
    let mut i: usize = 0;
    assert(start =~= start + lines_of(strokes_view(strokes@.take(0))));
    while i < strokes.len()
        invariant
            i <= strokes.len(),
            start == lines_view(old(lines)@),
            lines_view(lines@) == start + lines_of(strokes_view(strokes@.take(i as int))),
        decreases strokes.len() - i,
    {
        let ghost before = lines_view(lines@);
        let line = Line::from(&strokes[i]);
        lines.push(line);
        assert(lines_view(lines@) =~= before.push(line@));
        assert(lines_of(strokes_view(strokes@.take(i + 1))) =~= lines_of(
            strokes_view(strokes@.take(i as int)),
        ).push(line@));
        assert(lines_view(lines@) =~= start + lines_of(strokes_view(strokes@.take(i + 1))));
        i += 1;
    }
    assert(strokes@.take(i as int) == strokes@);
}

/// Takes `count` strokes from the end of the drawing, or all of them if
/// there are fewer.
pub fn drop_tail(lines: &mut Vec<Line>, count: usize)
    ensures
        lines_view(final(lines)@) == lines_view(old(lines)@).take(
            shortened(old(lines)@.len(), count as nat),
        ),
{
    let keep = if count <= lines.len() {
        lines.len() - count
    } else {
        0
    };
    lines.truncate(keep);
    assert(lines_view(lines@) =~= lines_view(old(lines)@).take(keep as int));
}

/// Removes the strokes at `indices`, highest index first.
pub fn remove_batch(lines: &mut Vec<Line>, indices: &Vec<usize>)
    ensures
        lines_view(final(lines)@) == remove_all(
            lines_view(old(lines)@),
            ascending(keyed(indices@)),
        ),
{
    let order = ascending_order(indices);
    let mut i: usize = order.len();
    assert(entries_view(order@).take(i as int) == entries_view(order@));
    while i > 0
        invariant
            i <= order.len(),
            entries_view(order@) == ascending(keyed(indices@)),
            remove_all(lines_view(lines@), entries_view(order@).take(i as int)) == remove_all(
                lines_view(old(lines)@),
                entries_view(order@),
            ),
        decreases i,
    {
        assert(entries_view(order@).take(i as int).drop_last() == entries_view(order@).take(
            i - 1,
        ));
        i -= 1;
        remove_at(lines, order[i].0);
    }
}

/// Puts back the strokes of a removed batch: `strokes[p]` goes to
/// `indices[p]`, lowest index first, and of two strokes for one index the
/// earlier in the batch first. Indices without a stroke, and strokes without
/// an index, are left out.
pub fn insert_batch(lines: &mut Vec<Line>, indices: &Vec<usize>, strokes: &Vec<SerializableLine>)
    ensures
        lines_view(final(lines)@) == insert_all(
            lines_view(old(lines)@),
            ascending(keyed(indices@.take(paired(indices@, strokes@.len() as int)))),
            lines_of(strokes_view(strokes@)),
        ),
{
    let count = if indices.len() <= strokes.len() {
        indices.len()
    } else {
        strokes.len()
    };
    let mut paired_indices = clone_indices(indices);
    paired_indices.truncate(count);
    assert(paired_indices@ == indices@.take(count as int));
    let order = ascending_order(&paired_indices);
    proof {
        crate::order::lemma_ascending_keyed(indices@.take(count as int));
    }
    let mut i: usize = 0;
    while i < order.len()
        invariant
            i <= order.len(),
            count <= strokes.len(),
            entries_view(order@) == ascending(keyed(indices@.take(count as int))),
            order@.len() == count,
            forall|k: int|
                0 <= k < order@.len() ==> 0 <= (#[trigger] entries_view(order@)[k]).1 < count,
            lines_view(lines@) == insert_all(
                lines_view(old(lines)@),
                entries_view(order@).take(i as int),
                lines_of(strokes_view(strokes@)),
            ),
        decreases order.len() - i,
    {
        let (index, position) = order[i];
        assert(entries_view(order@)[i as int].1 < count);
        assert(entries_view(order@).take(i + 1).drop_last() == entries_view(order@).take(
            i as int,
        ));
        let line = Line::from(&strokes[position]);
        assert(line@ == lines_of(strokes_view(strokes@))[position as int]);
        insert_at(lines, index, line);
        i += 1;
    }
    assert(entries_view(order@).take(i as int) == entries_view(order@));
}

/// Where `j` stands last in `indices`, or -1 if it does not occur.
pub open spec fn last_position_of(indices: Seq<usize>, j: int) -> int
    decreases indices.len(),
{
    if indices.len() == 0 {
        -1
    } else if indices.last() == j {
        indices.len() - 1
    } else {
        last_position_of(indices.drop_last(), j)
    }
}

/// How often `j` occurs in `indices`.
pub open spec fn occurrences(indices: Seq<usize>, j: int) -> nat
    decreases indices.len(),
{
    if indices.len() == 0 {
        0
    } else if indices.last() == j {
        occurrences(indices.drop_last(), j) + 1
    } else {
        occurrences(indices.drop_last(), j)
    }
}

/// How many entries of a batch have both an index and an item.
pub open spec fn paired(indices: Seq<usize>, items: int) -> int {
    if indices.len() <= items {
        indices.len() as int
    } else {
        items
    }
}

/// The list in which every place that the batch names holds the item listed
/// for it, the last one where the batch names a place more than once.
/// Entries without an item count for nothing.
pub open spec fn replace_all<T>(s: Seq<T>, indices: Seq<usize>, items: Seq<T>) -> Seq<T> {
    let named = indices.take(paired(indices, items.len() as int));
    Seq::new(
        s.len(),
        |j: int|
            if last_position_of(named, j) >= 0 {
                items[last_position_of(named, j)]
            } else {
                s[j]
            },
    )
}

/// The drawing in which every stroke is moved by `(dx, dy)` once for each
/// time the batch names it.
pub open spec fn move_all(s: Seq<LineView>, indices: Seq<usize>, dx: int, dy: int) -> Seq<LineView> {
    Seq::new(
        s.len(),
        |j: int| s[j].shifted(occurrences(indices, j) * dx, occurrences(indices, j) * dy),
    )
}

/// `last_position_of` names a place where `j` stands, if it stands anywhere.
pub proof fn lemma_last_position_of(indices: Seq<usize>, j: int)
    ensures
        -1 <= last_position_of(indices, j) < indices.len(),
        last_position_of(indices, j) >= 0 ==> indices[last_position_of(indices, j)] == j,
        last_position_of(indices, j) == -1 ==> forall|i: int|
            0 <= i < indices.len() ==> #[trigger] indices[i] != j,
    decreases indices.len(),
{
    if indices.len() > 0 {
        lemma_last_position_of(indices.drop_last(), j);
        if indices.last() != j {
            assert forall|i: int| 0 <= i < indices.len() && last_position_of(indices, j)
                == -1 implies #[trigger] indices[i] != j by {
                if i < indices.len() - 1 {
                    assert(indices.drop_last()[i] == indices[i]);
                }
            }
        }
    }
}

/// Replaces the strokes at `indices` by the strokes listed for them:
/// `strokes[p]` goes to `indices[p]`.
pub fn replace_batch(lines: &mut Vec<Line>, indices: &Vec<usize>, strokes: &Vec<SerializableLine>)
    ensures
        lines_view(final(lines)@) == replace_all(
            lines_view(old(lines)@),
            indices@,
            lines_of(strokes_view(strokes@)),
        ),
{
    let count = if indices.len() <= strokes.len() {
        indices.len()
    } else {
        strokes.len()
    };
    let ghost start = lines_view(lines@);
    let ghost items = lines_of(strokes_view(strokes@));
    let mut i: usize = 0;
    assert(lines_view(lines@) =~= replace_all(start, indices@.take(0), items));
    while i < count
        invariant
            i <= count,
            count == paired(indices@, strokes@.len() as int),
            start == lines_view(old(lines)@),
            items == lines_of(strokes_view(strokes@)),
            lines_view(lines@) == replace_all(start, indices@.take(i as int), items),
        decreases count - i,
    {
        let line = Line::from(&strokes[i]);
        let ghost before = lines_view(lines@);
        replace_at(lines, indices[i], line);
        proof {
            let shorter = indices@.take(i as int);
            let longer = indices@.take(i + 1);
            assert(longer.drop_last() == shorter);
            assert(shorter.take(paired(shorter, items.len() as int)) == shorter);
            assert(longer.take(paired(longer, items.len() as int)) == longer);
            assert(lines_view(lines@) =~= replace_all(start, longer, items));
        }
        i += 1;
    }
    proof {
        let named = indices@.take(count as int);
        assert(named.take(paired(named, items.len() as int)) == named);
    }
}

/// A batch that names nothing moves nothing.
pub proof fn lemma_move_all_empty(s: Seq<LineView>, indices: Seq<usize>, dx: int, dy: int)
    requires
        indices.len() == 0,
    ensures
        move_all(s, indices, dx, dy) == s,
{
    assert forall|j: int| 0 <= j < s.len() implies #[trigger] move_all(s, indices, dx, dy)[j]
        == s[j] by {
        let n = occurrences(indices, j);
        assert(n == 0);
        assert(n * dx == 0 && n * dy == 0) by (nonlinear_arith)
            requires
                n == 0,
        ;
        crate::models::lemma_shift_zero(s[j]);
    }
    assert(move_all(s, indices, dx, dy) =~= s);
}

/// Moving the stroke that the last entry of a batch names, after the moves
/// for the entries before it, completes the moves for the batch.
pub proof fn lemma_move_all_step(
    s: Seq<LineView>,
    indices: Seq<usize>,
    dx: int,
    dy: int,
    moved: Seq<LineView>,
)
    requires
        indices.len() > 0,
        moved.len() == s.len(),
        forall|j: int|
            0 <= j < s.len() && j != indices.last() ==> #[trigger] moved[j] == move_all(
                s,
                indices.drop_last(),
                dx,
                dy,
            )[j],
        indices.last() < s.len() ==> moved[indices.last() as int] == move_all(
            s,
            indices.drop_last(),
            dx,
            dy,
        )[indices.last() as int].shifted(dx, dy),
    ensures
        moved == move_all(s, indices, dx, dy),
{
    let target = move_all(s, indices, dx, dy);
    assert forall|j: int| 0 <= j < s.len() implies moved[j] == #[trigger] target[j] by {
        let n = occurrences(indices.drop_last(), j);
        if j == indices.last() {
            assert(occurrences(indices, j) == n + 1);
            assert((n + 1) * dx == n * dx + dx && (n + 1) * dy == n * dy + dy)
                by (nonlinear_arith);
            crate::models::lemma_shift_twice(s[j], n * dx, n * dy, dx, dy);
        } else {
            assert(occurrences(indices, j) == n);
        }
    }
    assert(moved =~= target);
}

/// Moves the strokes at `indices` by `(dx, dy)`, each once for every time it
/// is named.
pub fn move_batch(lines: &mut Vec<Line>, indices: &Vec<usize>, dx: i32, dy: i32)
    ensures
        lines_view(final(lines)@) == move_all(
            lines_view(old(lines)@),
            indices@,
            dx as int,
            dy as int,
        ),
{
    let ghost start = lines_view(lines@);
    let mut i: usize = 0;
    proof {
        lemma_move_all_empty(start, indices@.take(0), dx as int, dy as int);
    }
    while i < indices.len()
        invariant
            i <= indices.len(),
            start == lines_view(old(lines)@),
            lines@.len() == start.len(),
            lines_view(lines@) == move_all(start, indices@.take(i as int), dx as int, dy as int),
        decreases indices.len() - i,
    {
        let index = indices[i];
        let ghost before = lines_view(lines@);
        if index < lines.len() {
            lines[index].translate(dx, dy);
        }
        proof {
            assert(indices@.take(i + 1).drop_last() == indices@.take(i as int));
            assert(forall|j: int|
                0 <= j < before.len() && j != index ==> lines_view(lines@)[j] == before[j]);
            lemma_move_all_step(
                start,
                indices@.take(i + 1),
                dx as int,
                dy as int,
                lines_view(lines@),
            );
        }
        i += 1;
    }
    assert(indices@.take(i as int) == indices@);
}

/// Moves the strokes at `indices` by `(-dx, -dy)`, each once for every time
/// it is named.
pub fn move_back_batch(lines: &mut Vec<Line>, indices: &Vec<usize>, dx: i32, dy: i32)
    ensures
        lines_view(final(lines)@) == move_all(
            lines_view(old(lines)@),
            indices@,
            -(dx as int),
            -(dy as int),
        ),
{
    let ghost start = lines_view(lines@);
    let mut i: usize = 0;
    proof {
        lemma_move_all_empty(start, indices@.take(0), -(dx as int), -(dy as int));
    }
    while i < indices.len()
        invariant
            i <= indices.len(),
            start == lines_view(old(lines)@),
            lines@.len() == start.len(),
            lines_view(lines@) == move_all(
                start,
                indices@.take(i as int),
                -(dx as int),
                -(dy as int),
            ),
        decreases indices.len() - i,
    {
        let index = indices[i];
        let ghost before = lines_view(lines@);
        if index < lines.len() {
            lines[index].translate_back(dx, dy);
        }
        proof {
            assert(indices@.take(i + 1).drop_last() == indices@.take(i as int));
            assert(forall|j: int|
                0 <= j < before.len() && j != index ==> lines_view(lines@)[j] == before[j]);
            lemma_move_all_step(
                start,
                indices@.take(i + 1),
                -(dx as int),
                -(dy as int),
                lines_view(lines@),
            );
        }
        i += 1;
    }
    assert(indices@.take(i as int) == indices@);
}

} // verus!
