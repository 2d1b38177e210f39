//! The bookkeeping behind command deduplication, as mathematics.
//!
//! A device feature is a slot that remembers the value last sent to it. A
//! request is a sequence of writes, each naming a slot and a value, applied in
//! order. This module says what the slots hold afterwards, which slots have
//! something worth sending, and proves the facts the command manager and its
//! callers rely on.

use vstd::prelude::*;

verus! {

/// Every write names one of the `slots` slots.
pub open spec fn all_in_range<V>(writes: Seq<(int, V)>, slots: nat) -> bool {
    forall|j: int| 0 <= j < writes.len() ==> 0 <= (#[trigger] writes[j]).0 < slots
}

/// How many writes at the front of `writes` name one of the `slots` slots: the
/// position of the first write that does not, or the length if there is none.
pub open spec fn in_range_prefix<V>(writes: Seq<(int, V)>, slots: nat) -> nat
    decreases writes.len(),
{
    if writes.len() == 0 || !(0 <= writes[0].0 < slots) {
        0
    } else {
        1 + in_range_prefix(writes.drop_first(), slots)
    }
}

/// The slot values after the writes have been applied in order.
pub open spec fn applied<V>(last: Seq<V>, writes: Seq<(int, V)>) -> Seq<V>
    decreases writes.len(),
{
    if writes.len() == 0 {
        last
    } else {
        applied(last, writes.drop_last()).update(writes.last().0, writes.last().1)
    }
}

/// Some write names slot `i`.
pub open spec fn slot_written<V>(writes: Seq<(int, V)>, i: int) -> bool {
    exists|j: int| 0 <= j < writes.len() && (#[trigger] writes[j]).0 == i
}

/// Some write gives slot `i` a value other than the one it held before the
/// request.
pub open spec fn slot_moved<V>(last: Seq<V>, writes: Seq<(int, V)>, i: int) -> bool {
    exists|j: int| 0 <= j < writes.len() && (#[trigger] writes[j]).0 == i && writes[j].1 != last[i]
}

/// Some write gives its slot a value other than the one the slot held before
/// the request.
pub open spec fn moved<V>(last: Seq<V>, writes: Seq<(int, V)>) -> bool {
    exists|j: int| 0 <= j < writes.len() && (#[trigger] writes[j]).1 != last[writes[j].0]
}

/// What a request reports per slot: the new value of each slot that moved, and
/// with `resend` of each slot that was written at all; nothing for the others.
pub open spec fn reported<V>(last: Seq<V>, writes: Seq<(int, V)>, resend: bool) -> Seq<Option<V>> {
    Seq::new(
        last.len(),
        |i: int|
            if slot_moved(last, writes, i) || (resend && slot_written(writes, i)) {
                Some(applied(last, writes)[i])
            } else {
                None
            },
    )
}

/// Writes to one slot agree on its value.
pub open spec fn consistent<V>(writes: Seq<(int, V)>) -> bool {
    forall|j: int, k: int|
        0 <= j < writes.len() && 0 <= k < writes.len() && (#[trigger] writes[j]).0 == (
        #[trigger] writes[k]).0 ==> writes[j].1 == writes[k].1
}

/// The prefix counted by `in_range_prefix` ends at `k` exactly when the first
/// `k` writes are in range and the next one, if there is one, is not.
pub proof fn lemma_in_range_prefix<V>(writes: Seq<(int, V)>, slots: nat, k: int)
    requires
        0 <= k <= writes.len(),
        forall|j: int| 0 <= j < k ==> 0 <= (#[trigger] writes[j]).0 < slots,
        k == writes.len() || !(0 <= writes[k].0 < slots),
    ensures
        in_range_prefix(writes, slots) == k,
    decreases k,
{
    if k > 0 {
        let rest = writes.drop_first();
        assert(0 <= writes[0].0 < slots);
        assert forall|j: int| 0 <= j < k - 1 implies 0 <= (#[trigger] rest[j]).0 < slots by {
            assert(rest[j] == writes[j + 1]);
        }
        if k < writes.len() {
            assert(rest[k - 1] == writes[k]);
        }
        lemma_in_range_prefix(rest, slots, k - 1);
    }
}

/// A request is in range throughout exactly when its in-range prefix is the
/// whole request.
pub proof fn lemma_all_in_range_is_full_prefix<V>(writes: Seq<(int, V)>, slots: nat)
    ensures
        all_in_range(writes, slots) <==> in_range_prefix(writes, slots) == writes.len(),
        in_range_prefix(writes, slots) <= writes.len(),
        all_in_range(writes.take(in_range_prefix(writes, slots) as int), slots),
    decreases writes.len(),
{
    let p = in_range_prefix(writes, slots);
    if writes.len() == 0 || !(0 <= writes[0].0 < slots) {
        assert(p == 0);
    } else {
        let rest = writes.drop_first();
        lemma_all_in_range_is_full_prefix(rest, slots);
        let q = in_range_prefix(rest, slots);
        assert(p == q + 1);
        assert forall|j: int| 0 <= j < p implies 0 <= (#[trigger] writes.take(p as int)[j]).0
            < slots by {
            if j > 0 {
                assert(writes.take(p as int)[j] == rest.take(q as int)[j - 1]);
            }
        }
        if all_in_range(writes, slots) {
            assert forall|j: int| 0 <= j < rest.len() implies 0 <= (#[trigger] rest[j]).0
                < slots by {
                assert(rest[j] == writes[j + 1]);
            }
        }
        if q == rest.len() {
            assert forall|j: int| 0 <= j < writes.len() implies 0 <= (#[trigger] writes[j]).0
                < slots by {
                if j > 0 {
                    assert(writes[j] == rest[j - 1]);
                }
            }
        }
    }
}

/// Applying writes that are in range keeps the number of slots.
pub proof fn lemma_applied_len<V>(last: Seq<V>, writes: Seq<(int, V)>)
    requires
        all_in_range(writes, last.len()),
    ensures
        applied(last, writes).len() == last.len(),
    decreases writes.len(),
{
    if writes.len() > 0 {
        let rest = writes.drop_last();
        assert forall|j: int| 0 <= j < rest.len() implies 0 <= (#[trigger] rest[j]).0
            < last.len() by {
            assert(rest[j] == writes[j]);
        }
        lemma_applied_len(last, rest);
        assert(0 <= writes[writes.len() - 1].0 < last.len());
    }
}

/// What one more write adds to a request: `writes.take(k + 1)` against
/// `writes.take(k)`.
pub proof fn lemma_one_more_write<V>(last: Seq<V>, writes: Seq<(int, V)>, k: int)
    requires
        0 <= k < writes.len(),
    ensures
        applied(last, writes.take(k + 1)) == applied(last, writes.take(k)).update(
            writes[k].0,
            writes[k].1,
        ),
        forall|i: int|
            slot_written(writes.take(k + 1), i) == (slot_written(writes.take(k), i)
                || writes[k].0 == i),
        forall|i: int|
            slot_moved(last, writes.take(k + 1), i) == (slot_moved(last, writes.take(k), i) || (
            writes[k].0 == i && writes[k].1 != last[i])),
        moved(last, writes.take(k + 1)) == (moved(last, writes.take(k)) || writes[k].1
            != last[writes[k].0]),
{
    let more = writes.take(k + 1);
    let fewer = writes.take(k);
    assert(more.drop_last() =~= fewer);
    assert(more.last() == writes[k]);
    assert(more[k] == writes[k]);
    assert forall|i: int|
        slot_written(more, i) == (slot_written(fewer, i) || writes[k].0 == i) by {
        if slot_written(more, i) {
            let j = choose|j: int| 0 <= j < more.len() && (#[trigger] more[j]).0 == i;
            if j < k {
                assert(fewer[j] == more[j]);
            }
        }
        if slot_written(fewer, i) {
            let j = choose|j: int| 0 <= j < fewer.len() && (#[trigger] fewer[j]).0 == i;
            assert(more[j] == fewer[j]);
        }
    }
    assert forall|i: int|
        slot_moved(last, more, i) == (slot_moved(last, fewer, i) || (writes[k].0 == i
            && writes[k].1 != last[i])) by {
        if slot_moved(last, more, i) {
            let j = choose|j: int|
                0 <= j < more.len() && (#[trigger] more[j]).0 == i && more[j].1 != last[i];
            if j < k {
                assert(fewer[j] == more[j]);
            }
        }
        if slot_moved(last, fewer, i) {
            let j = choose|j: int|
                0 <= j < fewer.len() && (#[trigger] fewer[j]).0 == i && fewer[j].1 != last[i];
            assert(more[j] == fewer[j]);
        }
    }
    if moved(last, more) {
        let j = choose|j: int| 0 <= j < more.len() && (#[trigger] more[j]).1 != last[more[j].0];
        if j < k {
            assert(fewer[j] == more[j]);
        }
    }
    if moved(last, fewer) {
        let j = choose|j: int| 0 <= j < fewer.len() && (#[trigger] fewer[j]).1 != last[fewer[j].0];
        assert(more[j] == fewer[j]);
    }
}

/// A slot holds its old value unless some write moved it.
pub proof fn lemma_applied_unmoved<V>(last: Seq<V>, writes: Seq<(int, V)>, i: int)
    requires
        all_in_range(writes, last.len()),
        0 <= i < last.len(),
        !slot_moved(last, writes, i),
    ensures
        applied(last, writes)[i] == last[i],
    decreases writes.len(),
{
    if writes.len() > 0 {
        let k = writes.len() - 1;
        let rest = writes.drop_last();
        assert(writes.take(k + 1) =~= writes);
        assert(writes.take(k) =~= rest);
        lemma_one_more_write(last, writes, k);
        assert forall|j: int| 0 <= j < rest.len() implies 0 <= (#[trigger] rest[j]).0
            < last.len() by {
            assert(rest[j] == writes[j]);
        }
        lemma_applied_len(last, rest);
        lemma_applied_unmoved(last, rest, i);
        assert(0 <= writes[k].0 < last.len());
    }
}

/// A request moved something exactly when it moved some slot.
pub proof fn lemma_moved_is_some_slot_moved<V>(last: Seq<V>, writes: Seq<(int, V)>)
    requires
        all_in_range(writes, last.len()),
    ensures
        moved(last, writes) <==> exists|i: int|
            0 <= i < last.len() && #[trigger] slot_moved(last, writes, i),
{
    if moved(last, writes) {
        let j = choose|j: int|
            0 <= j < writes.len() && (#[trigger] writes[j]).1 != last[writes[j].0];
        assert(slot_moved(last, writes, writes[j].0));
    }
    if exists|i: int| 0 <= i < last.len() && #[trigger] slot_moved(last, writes, i) {
        let i = choose|i: int| 0 <= i < last.len() && #[trigger] slot_moved(last, writes, i);
        let j = choose|j: int|
            0 <= j < writes.len() && (#[trigger] writes[j]).0 == i && writes[j].1 != last[i];
        assert(writes[j].1 != last[writes[j].0]);
    }
}

/// After a request whose writes agree slot by slot, every written slot holds
/// the value that its writes name.
pub proof fn lemma_applied_consistent<V>(last: Seq<V>, writes: Seq<(int, V)>, j: int)
    requires
        all_in_range(writes, last.len()),
        consistent(writes),
        0 <= j < writes.len(),
    ensures
        applied(last, writes)[writes[j].0] == writes[j].1,
    decreases writes.len(),
{
    let k = writes.len() - 1;
    let rest = writes.drop_last();
    assert forall|a: int| 0 <= a < rest.len() implies 0 <= (#[trigger] rest[a]).0
        < last.len() by {
        assert(rest[a] == writes[a]);
    }
    lemma_applied_len(last, rest);
    assert(0 <= writes[k].0 < last.len());
    assert(0 <= writes[j].0 < last.len());
    if writes[j].0 == writes[k].0 {
    } else {
        assert forall|a: int, b: int|
            0 <= a < rest.len() && 0 <= b < rest.len() && (#[trigger] rest[a]).0 == (
            #[trigger] rest[b]).0 implies rest[a].1 == rest[b].1 by {
            assert(rest[a] == writes[a]);
            assert(rest[b] == writes[b]);
        }
        assert(rest[j] == writes[j]);
        lemma_applied_consistent(last, rest, j);
    }
}

/// Issuing a request a second time moves nothing, provided its writes agree
/// slot by slot.
pub proof fn lemma_repeat_moves_nothing<V>(last: Seq<V>, writes: Seq<(int, V)>)
    requires
        all_in_range(writes, last.len()),
        consistent(writes),
    ensures
        !moved(applied(last, writes), writes),
{
    let after = applied(last, writes);
    assert forall|j: int| 0 <= j < writes.len() implies (#[trigger] writes[j]).1
        == after[writes[j].0] by {
        lemma_applied_consistent(last, writes, j);
    }
}

/// With writes that agree slot by slot, a request reports for each slot the
/// value its writes name, under the conditions of `reported`.
pub proof fn lemma_reported_value<V>(last: Seq<V>, writes: Seq<(int, V)>, resend: bool, j: int)
    requires
        all_in_range(writes, last.len()),
        consistent(writes),
        0 <= j < writes.len(),
    ensures
        reported(last, writes, resend)[writes[j].0] == (if resend || writes[j].1
            != last[writes[j].0] {
            Some(writes[j].1)
        } else {
            None
        }),
{
    let i = writes[j].0;
    assert(0 <= i < last.len());
    lemma_applied_consistent(last, writes, j);
    assert(slot_written(writes, i));
    if writes[j].1 != last[i] {
        assert(slot_moved(last, writes, i));
    } else if slot_moved(last, writes, i) {
        let k = choose|k: int|
            0 <= k < writes.len() && (#[trigger] writes[k]).0 == i && writes[k].1 != last[i];
        assert(writes[k].1 == writes[j].1);
    }
}

/// A slot that no write names reports nothing and keeps its value.
pub proof fn lemma_unwritten_slot<V>(last: Seq<V>, writes: Seq<(int, V)>, resend: bool, i: int)
    requires
        all_in_range(writes, last.len()),
        0 <= i < last.len(),
        !slot_written(writes, i),
    ensures
        reported(last, writes, resend)[i] == None::<V>,
        applied(last, writes)[i] == last[i],
{
    if slot_moved(last, writes, i) {
        let k = choose|k: int|
            0 <= k < writes.len() && (#[trigger] writes[k]).0 == i && writes[k].1 != last[i];
        assert(slot_written(writes, i));
    }
    lemma_applied_unmoved(last, writes, i);
}

} // verus!
