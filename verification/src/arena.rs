//! Counting the occupied slots of an arena.

use vstd::prelude::*;

verus! {

/// How many of the slots are occupied.
pub open spec fn occupied<T>(slots: Seq<Option<T>>) -> nat
    decreases slots.len(),
{
    if slots.len() == 0 {
        0
    } else {
        occupied(slots.drop_last()) + if slots.last().is_some() {
            1nat
        } else {
            0nat
        }
    }
}

/// Appending a slot adds one to the count if the slot is occupied.
pub proof fn lemma_occupied_push<T>(slots: Seq<Option<T>>, value: Option<T>)
    ensures
        occupied(slots.push(value)) == occupied(slots) + if value.is_some() {
            1nat
        } else {
            0nat
        },
{
    assert(slots.push(value).drop_last() =~= slots);
}

/// Rewriting one slot changes the count by what that slot gained or lost.
pub proof fn lemma_occupied_update<T>(slots: Seq<Option<T>>, i: int, value: Option<T>)
    requires
        0 <= i < slots.len(),
    ensures
        occupied(slots.update(i, value)) + (if slots[i].is_some() {
            1nat
        } else {
            0nat
        }) == occupied(slots) + if value.is_some() {
            1nat
        } else {
            0nat
        },
    decreases slots.len(),
{
    let updated = slots.update(i, value);
    if i == slots.len() - 1 {
        assert(updated.drop_last() =~= slots.drop_last());
    } else {
        lemma_occupied_update(slots.drop_last(), i, value);
        assert(updated.drop_last() =~= slots.drop_last().update(i, value));
    }
}

/// No more slots are counted than there are.
pub proof fn lemma_occupied_le_len<T>(slots: Seq<Option<T>>)
    ensures
        occupied(slots) <= slots.len(),
    decreases slots.len(),
{
    if slots.len() > 0 {
        lemma_occupied_le_len(slots.drop_last());
    }
}

/// An occupied slot is counted.
pub proof fn lemma_occupied_bounds<T>(slots: Seq<Option<T>>, i: int)
    requires
        0 <= i < slots.len(),
    ensures
        occupied(slots) <= slots.len(),
        slots[i].is_some() ==> occupied(slots) >= 1,
    decreases slots.len(),
{
    lemma_occupied_le_len(slots);
    if i < slots.len() - 1 {
        lemma_occupied_bounds(slots.drop_last(), i);
    }
}

/// The count of a prefix that is one longer is the count of the prefix and
/// one more if the slot after it is occupied.
pub proof fn lemma_occupied_take<T>(slots: Seq<Option<T>>, k: int)
    requires
        0 <= k < slots.len(),
    ensures
        occupied(slots.take(k + 1)) == occupied(slots.take(k)) + if slots[k].is_some() {
            1nat
        } else {
            0nat
        },
{
    assert(slots.take(k + 1).drop_last() =~= slots.take(k));
}

/// How many of the first `k` slots are empty in `after` and were not empty
/// in `before`: they were occupied, or they were handed out since.
pub open spec fn released<T>(before: Seq<Option<T>>, after: Seq<Option<T>>, k: int) -> nat
    decreases k,
{
    if k <= 0 {
        0
    } else {
        released(before, after, k - 1) + if after[k - 1].is_none() && (k - 1 >= before.len()
            || before[k - 1].is_some()) {
            1nat
        } else {
            0nat
        }
    }
}

/// Where an arena has only grown and no empty slot has been filled, the
/// occupancy has gone up by the slots handed out and down by the slots
/// released, prefix by prefix.
pub proof fn lemma_conservation_prefix<T>(before: Seq<Option<T>>, after: Seq<Option<T>>, k: int)
    requires
        before.len() <= after.len(),
        0 <= k <= after.len(),
        forall|i: int| 0 <= i < before.len() && before[i].is_none() ==> after[i].is_none(),
    ensures
        k <= before.len() ==> occupied(after.take(k)) + released(before, after, k) == occupied(
            before.take(k),
        ),
        k >= before.len() ==> occupied(after.take(k)) + released(before, after, k) == occupied(
            before,
        ) + (k - before.len()),
    decreases k,
{
    if k > 0 {
        lemma_conservation_prefix(before, after, k - 1);
        lemma_occupied_take(after, k - 1);
        if k <= before.len() {
            lemma_occupied_take(before, k - 1);
        }
        if k - 1 == before.len() || k == before.len() {
            assert(before.take(before.len() as int) =~= before);
        }
    } else {
        assert(before.take(0).len() == 0);
        assert(after.take(0).len() == 0);
    }
}

/// Slot accounting: where an arena has only grown and no empty slot has
/// been filled, the slots handed out less the slots released are the
/// change in occupancy.
pub proof fn lemma_conservation<T>(before: Seq<Option<T>>, after: Seq<Option<T>>)
    requires
        before.len() <= after.len(),
        forall|i: int| 0 <= i < before.len() && before[i].is_none() ==> after[i].is_none(),
    ensures
        occupied(after) + released(before, after, after.len() as int) == occupied(before) + (
        after.len() - before.len()),
{
    lemma_conservation_prefix(before, after, after.len() as int);
    assert(after.take(after.len() as int) =~= after);
}

} // verus!
