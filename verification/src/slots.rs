//! The mathematical model of a dense partition: one bounded sequence of point
//! ids per slot of the grid.

use vstd::prelude::*;

verus! {

/// The contents of a dense partition, slot by slot.
pub type Slots = Seq<Seq<usize>>;

/// The points that a bin of the given capacity keeps of `points`: all of
/// them if they fit, else the first `capacity`.
pub open spec fn capped(points: Seq<usize>, capacity: int) -> Seq<usize> {
    if points.len() <= capacity {
        points
    } else {
        points.take(capacity)
    }
}

/// The points of slot `slot`; a slot outside the grid holds none.
pub open spec fn slot_at(slots: Slots, slot: int) -> Seq<usize> {
    if 0 <= slot < slots.len() {
        slots[slot]
    } else {
        Seq::empty()
    }
}

/// The partition that holds, in every slot, the points of `a` followed by
/// those of `b`, as far as the capacity reaches.
pub open spec fn merge_slots(a: Slots, b: Slots, capacity: int) -> Slots {
    Seq::new(a.len(), |slot: int| capped(a[slot] + b[slot], capacity))
}

/// The number of points held by all slots together.
pub open spec fn slots_total(slots: Slots) -> nat
    decreases slots.len(),
{
    if slots.len() == 0 {
        0
    } else {
        slots_total(slots.drop_last()) + slots.last().len()
    }
}

/// Replacing the contents of one slot changes the total by the difference in
/// length.
pub proof fn lemma_slots_total_update(slots: Slots, slot: int, bin: Seq<usize>)
    requires
        0 <= slot < slots.len(),
    ensures
        slots_total(slots.update(slot, bin)) + slots[slot].len() == slots_total(slots) + bin.len(),
    decreases slots.len(),
{
    let after = slots.update(slot, bin);
    if slot == slots.len() - 1 {
        assert(after.drop_last() =~= slots.drop_last());
    } else {
        lemma_slots_total_update(slots.drop_last(), slot, bin);
        assert(after.drop_last() =~= slots.drop_last().update(slot, bin));
    }
}

/// The total of the first `upto + 1` slots is that of the first `upto` and
/// the length of the next, and no more than the total of all.
pub proof fn lemma_slots_total_prefix(slots: Slots, upto: int)
    requires
        0 <= upto < slots.len(),
    ensures
        slots_total(slots.take(upto + 1)) == slots_total(slots.take(upto)) + slots[upto].len(),
        slots_total(slots.take(upto + 1)) <= slots_total(slots),
    decreases slots.len() - upto,
{
    assert(slots.take(upto + 1).drop_last() =~= slots.take(upto));
    if upto + 1 < slots.len() {
        lemma_slots_total_prefix(slots, upto + 1);
    }
}

/// Empty slots hold no points.
pub proof fn lemma_slots_total_empty(slots: Slots)
    requires
        forall|slot: int| 0 <= slot < slots.len() ==> (#[trigger] slots[slot]).len() == 0,
    ensures
        slots_total(slots) == 0,
    decreases slots.len(),
{
    if slots.len() > 0 {
        lemma_slots_total_empty(slots.drop_last());
    }
}

/// Capping the two parts before they are joined and capped keeps the same
/// points as capping the whole.
pub proof fn lemma_capped_merge(first: Seq<usize>, second: Seq<usize>, capacity: int)
    requires
        capacity >= 0,
    ensures
        capped(capped(first, capacity) + capped(second, capacity), capacity) == capped(
            first + second,
            capacity,
        ),
{
}

/// `answer` names the slot of maximum occupancy with its count, the lowest
/// such slot where several hold as many; it is `None` where every slot is
/// empty.
pub open spec fn is_fullest(slots: Slots, answer: Option<(usize, usize)>) -> bool {
    match answer {
        Some((slot, count)) => {
            &&& slot < slots.len()
            &&& slots[slot as int].len() == count
            &&& count > 0
            &&& forall|other: int|
                0 <= other < slots.len() ==> (#[trigger] slots[other]).len() < count || (
                slots[other].len() == count && slot <= other)
        },
        None => forall|other: int| 0 <= other < slots.len() ==> (#[trigger] slots[other]).len() == 0,
    }
}

} // verus!
