//! The order in which a batch of stroke indices is worked through.
//!
//! A batch is a list of entries `(index, position)`: a stroke index together
//! with the place it had in the list it came from. Ascending order sorts by
//! index and keeps entries with equal indices in the order they came in.

use vstd::prelude::*;

verus! {

/// Pairs every index of a batch with its position in the batch.
pub open spec fn keyed(indices: Seq<usize>) -> Seq<(int, int)> {
    Seq::new(indices.len(), |i: int| (indices[i] as int, i))
}

/// The entries that a vector of index and position pairs holds.
pub open spec fn entries_view(entries: Seq<(usize, usize)>) -> Seq<(int, int)> {
    entries.map_values(|e: (usize, usize)| (e.0 as int, e.1 as int))
}

/// Where the entry stands that ascending order puts last: the one with the
/// largest index, and of several with that index the latest.
pub open spec fn last_max(entries: Seq<(int, int)>) -> int
    decreases entries.len(),
{
    if entries.len() <= 1 {
        0
    } else {
        let m = last_max(entries.drop_last());
        if entries.last().0 >= entries[m].0 {
            entries.len() - 1
        } else {
            m
        }
    }
}

/// The entries in ascending order of index; entries with equal indices stay
/// in the order they came in.
pub open spec fn ascending(entries: Seq<(int, int)>) -> Seq<(int, int)>
    decreases entries.len(),
{
    if entries.len() == 0 {
        Seq::empty()
    } else {
        proof {
            lemma_last_max(entries);
        }
        let m = last_max(entries);
        ascending(entries.remove(m)).push(entries[m])
    }
}

/// `last_max` names an entry of the batch, no entry has a larger index, and
/// every entry behind it has a smaller one.
pub proof fn lemma_last_max(entries: Seq<(int, int)>)
    requires
        entries.len() > 0,
    ensures
        0 <= last_max(entries) < entries.len(),
        forall|i: int|
            0 <= i < entries.len() ==> (#[trigger] entries[i]).0 <= entries[last_max(entries)].0,
        forall|i: int|
            last_max(entries) < i < entries.len() ==> (#[trigger] entries[i]).0
                < entries[last_max(entries)].0,
    decreases entries.len(),
{
    if entries.len() > 1 {
        let init = entries.drop_last();
        lemma_last_max(init);
        assert forall|i: int| 0 <= i < entries.len() implies (#[trigger] entries[i]).0
            <= entries[last_max(entries)].0 by {
            if i < init.len() {
                assert(init[i] == entries[i]);
            }
        }
        assert forall|i: int| last_max(entries) < i < entries.len() implies (
        #[trigger] entries[i]).0 < entries[last_max(entries)].0 by {
            if i < init.len() {
                assert(init[i] == entries[i]);
            }
        }
    }
}

/// Ascending order keeps the number of entries.
pub proof fn lemma_ascending_len(entries: Seq<(int, int)>)
    ensures
        ascending(entries).len() == entries.len(),
    decreases entries.len(),
{
    if entries.len() > 0 {
        lemma_last_max(entries);
        lemma_ascending_len(entries.remove(last_max(entries)));
    }
}

/// Ascending order rearranges: each entry occurs in the result as often as
/// in the batch.
pub proof fn lemma_ascending_permutes(entries: Seq<(int, int)>)
    ensures
        ascending(entries).to_multiset() == entries.to_multiset(),
    decreases entries.len(),
{
    broadcast use vstd::seq_lib::group_to_multiset_ensures;

    if entries.len() > 0 {
        lemma_last_max(entries);
        let m = last_max(entries);
        let rest = entries.remove(m);
        lemma_ascending_permutes(rest);
        vstd::seq_lib::to_multiset_remove(entries, m);
        vstd::seq_lib::to_multiset_build(ascending(rest), entries[m]);
        assert(entries.to_multiset().count(entries[m]) > 0);
        assert(entries.to_multiset() =~= rest.to_multiset().insert(entries[m]));
    } else {
        assert(ascending(entries) =~= entries);
    }
}

/// Every entry of the ascending order is an entry of the batch.
pub proof fn lemma_ascending_members(entries: Seq<(int, int)>)
    ensures
        forall|i: int|
            0 <= i < ascending(entries).len() ==> entries.contains(
                #[trigger] ascending(entries)[i],
            ),
    decreases entries.len(),
{
    if entries.len() > 0 {
        lemma_last_max(entries);
        let m = last_max(entries);
        let rest = entries.remove(m);
        lemma_ascending_members(rest);
        lemma_ascending_len(rest);
        assert forall|i: int| 0 <= i < ascending(entries).len() implies entries.contains(
            #[trigger] ascending(entries)[i],
        ) by {
            if i < ascending(rest).len() {
                let e = ascending(rest)[i];
                assert(rest.contains(e));
                let j = choose|j: int| 0 <= j < rest.len() && rest[j] == e;
                if j < m {
                    assert(entries[j] == e);
                } else {
                    assert(entries[j + 1] == e);
                }
            } else {
                assert(ascending(entries)[i] == entries[m]);
            }
        }
    }
}

/// Indices never go down along the ascending order.
pub proof fn lemma_ascending_sorted(entries: Seq<(int, int)>)
    ensures
        forall|i: int, j: int|
            0 <= i < j < ascending(entries).len() ==> (#[trigger] ascending(entries)[i]).0 <= (
            #[trigger] ascending(entries)[j]).0,
    decreases entries.len(),
{
    if entries.len() > 0 {
        lemma_last_max(entries);
        let m = last_max(entries);
        let rest = entries.remove(m);
        lemma_ascending_sorted(rest);
        lemma_ascending_members(rest);
        lemma_ascending_len(rest);
        assert forall|i: int, j: int| 0 <= i < j < ascending(entries).len() implies (
        #[trigger] ascending(entries)[i]).0 <= (#[trigger] ascending(entries)[j]).0 by {
            if j == ascending(rest).len() {
                let e = ascending(rest)[i];
                assert(rest.contains(e));
                let k = choose|k: int| 0 <= k < rest.len() && rest[k] == e;
                if k < m {
                    assert(entries[k] == e);
                } else {
                    assert(entries[k + 1] == e);
                }
            }
        }
    }
}

/// Ascending order is stable: where positions go up along the batch, as
/// they do in a batch made by `keyed`, entries with equal indices stand in
/// the ascending order by position.
pub proof fn lemma_ascending_stable(entries: Seq<(int, int)>)
    requires
        forall|i: int, j: int|
            0 <= i < j < entries.len() ==> (#[trigger] entries[i]).1 < (#[trigger] entries[j]).1,
    ensures
        forall|i: int, j: int|
            0 <= i < j < ascending(entries).len() && (#[trigger] ascending(entries)[i]).0 == (
            #[trigger] ascending(entries)[j]).0 ==> ascending(entries)[i].1 < ascending(
                entries,
            )[j].1,
    decreases entries.len(),
{
    if entries.len() > 0 {
        lemma_last_max(entries);
        let m = last_max(entries);
        let rest = entries.remove(m);
        assert forall|i: int, j: int| 0 <= i < j < rest.len() implies (#[trigger] rest[i]).1 < (
        #[trigger] rest[j]).1 by {
            let a = if i < m { i } else { i + 1 };
            let b = if j < m { j } else { j + 1 };
            assert(rest[i] == entries[a] && rest[j] == entries[b]);
        }
        lemma_ascending_stable(rest);
        lemma_ascending_members(rest);
        lemma_ascending_len(rest);
        let sorted = ascending(entries);
        assert forall|i: int, j: int|
            0 <= i < j < sorted.len() && (#[trigger] sorted[i]).0 == (
            #[trigger] sorted[j]).0 implies sorted[i].1 < sorted[j].1 by {
            if j == rest.len() {
                let e = ascending(rest)[i];
                assert(sorted[i] == e);
                assert(rest.contains(e));
                let r = choose|r: int| 0 <= r < rest.len() && rest[r] == e;
                let a = if r < m { r } else { r + 1 };
                assert(rest[r] == entries[a]);
                if a > m {
                    assert(entries[a].0 < entries[m].0);
                }
            } else {
                assert(sorted[i] == ascending(rest)[i]);
                assert(sorted[j] == ascending(rest)[j]);
            }
        }
    }
}

/// If no entry occurs twice in the batch, none occurs twice in the
/// ascending order.
pub proof fn lemma_ascending_no_duplicates(entries: Seq<(int, int)>)
    requires
        entries.no_duplicates(),
    ensures
        ascending(entries).no_duplicates(),
    decreases entries.len(),
{
    if entries.len() > 0 {
        lemma_last_max(entries);
        let m = last_max(entries);
        let rest = entries.remove(m);
        assert forall|i: int, j: int| 0 <= i < rest.len() && 0 <= j < rest.len() && i
            != j implies rest[i] != rest[j] by {
            let a = if i < m { i } else { i + 1 };
            let b = if j < m { j } else { j + 1 };
            assert(rest[i] == entries[a] && rest[j] == entries[b]);
        }
        lemma_ascending_no_duplicates(rest);
        lemma_ascending_members(rest);
        lemma_ascending_len(rest);
        let sorted = ascending(entries);
        assert forall|i: int, j: int| 0 <= i < sorted.len() && 0 <= j < sorted.len() && i
            != j implies sorted[i] != sorted[j] by {
            if i == rest.len() || j == rest.len() {
                let k = if i == rest.len() { j } else { i };
                let e = ascending(rest)[k];
                assert(sorted[k] == e);
                assert(rest.contains(e));
                let r = choose|r: int| 0 <= r < rest.len() && rest[r] == e;
                let a = if r < m { r } else { r + 1 };
                assert(rest[r] == entries[a]);
                assert(entries[a] != entries[m]);
            } else {
                assert(sorted[i] == ascending(rest)[i]);
                assert(sorted[j] == ascending(rest)[j]);
            }
        }
    }
}

/// The ascending order of a batch of distinct indices goes strictly up.
pub proof fn lemma_ascending_strict(indices: Seq<usize>)
    requires
        forall|i: int, j: int|
            0 <= i < j < indices.len() ==> #[trigger] indices[i] != #[trigger] indices[j],
    ensures
        forall|i: int, j: int|
            0 <= i < j < indices.len() ==> (#[trigger] ascending(keyed(indices))[i]).0 < (
            #[trigger] ascending(keyed(indices))[j]).0,
{
    let entries = keyed(indices);
    let sorted = ascending(entries);
    assert(entries.no_duplicates());
    lemma_ascending_no_duplicates(entries);
    lemma_ascending_sorted(entries);
    lemma_ascending_keyed(indices);
    assert forall|i: int, j: int| 0 <= i < j < indices.len() implies (#[trigger] sorted[i]).0 < (
    #[trigger] sorted[j]).0 by {
        assert(sorted[i] != sorted[j]);
        if sorted[i].0 == sorted[j].0 {
            let a = sorted[i].1;
            let b = sorted[j].1;
            assert(a != b);
            if a < b {
                assert(indices[a] != indices[b]);
            } else {
                assert(indices[b] != indices[a]);
            }
        }
    }
}

/// Every entry of an ordered batch names a position of the batch and
/// carries the index found there.
pub proof fn lemma_ascending_keyed(indices: Seq<usize>)
    ensures
        ascending(keyed(indices)).len() == indices.len(),
        forall|i: int|
            0 <= i < indices.len() ==> {
                let entry = #[trigger] ascending(keyed(indices))[i];
                0 <= entry.1 < indices.len() && entry.0 == indices[entry.1 as int]
            },
{
    let entries = keyed(indices);
    lemma_ascending_len(entries);
    lemma_ascending_members(entries);
    assert forall|i: int| 0 <= i < indices.len() implies {
        let entry = #[trigger] ascending(entries)[i];
        0 <= entry.1 < indices.len() && entry.0 == indices[entry.1 as int]
    } by {
        let entry = ascending(entries)[i];
        assert(entries.contains(entry));
        let j = choose|j: int| 0 <= j < entries.len() && entries[j] == entry;
        assert(entry == (indices[j] as int, j));
    }
}

/// Finds the entry that ascending order puts last.
fn last_max_position(entries: &Vec<(usize, usize)>) -> (m: usize)
    requires
        entries.len() > 0,
    ensures
        m == last_max(entries_view(entries@)),
{
    let mut m: usize = 0;
    let mut i: usize = 1;
    while i < entries.len()
        invariant
            1 <= i <= entries.len(),
            m < i,
            m == last_max(entries_view(entries@.take(i as int))),
        decreases entries.len() - i,
    {
        assert(entries_view(entries@.take(i + 1)).drop_last() == entries_view(
            entries@.take(i as int),
        ));
        if entries[i].0 >= entries[m].0 {
            m = i;
        }
        i += 1;
    }
    assert(entries@.take(i as int) == entries@);
    m
}

/// Puts the indices of a batch in ascending order, each with the position
/// it had in the batch.
pub fn ascending_order(indices: &Vec<usize>) -> (order: Vec<(usize, usize)>)
    ensures
        entries_view(order@) == ascending(keyed(indices@)),
{
    let count = indices.len();
    let mut work: Vec<(usize, usize)> = Vec::new();
    let mut i: usize = 0;
    while i < count
        invariant
            i <= count <= indices.len(),
            entries_view(work@) == keyed(indices@.take(i as int)),
        decreases count - i,
    {
        let ghost before = entries_view(work@);
        work.push((indices[i], i));
        assert(entries_view(work@) =~= before.push((indices[i as int] as int, i as int)));
        assert(entries_view(work@) =~= keyed(indices@.take(i + 1)));
        i += 1;
    }
    assert(indices@.take(count as int) == indices@);
    let ghost batch = entries_view(work@);
    let mut order: Vec<(usize, usize)> = Vec::new();
    while work.len() > 0
        invariant
            ascending(batch) == ascending(entries_view(work@)) + entries_view(order@),
        decreases work.len(),
    {
        let m = last_max_position(&work);
        proof {
            lemma_last_max(entries_view(work@));
        }
        let ghost before = entries_view(work@);
        let ghost sorted = entries_view(order@);
        let entry = work.remove(m);
        let ghost e = (entry.0 as int, entry.1 as int);
        assert(entries_view(work@) =~= before.remove(m as int));
        assert(ascending(before) == ascending(entries_view(work@)).push(e));
        order.insert(0, entry);
        assert(entries_view(order@) =~= sorted.insert(0, e));
        assert(ascending(before) + sorted =~= ascending(entries_view(work@)) + entries_view(
            order@,
        ));
    }
    assert(ascending(entries_view(work@)) + entries_view(order@) =~= entries_view(order@));
    order
}

} // verus!
