//! Operations on the backing store of a scene, for any kind of item: adding
//! at the end, removing the items that were marked, and borrowing or moving
//! the items in a given order.

use vstd::prelude::*;

verus! {

/// Whether the item at position `i` stays: it does unless it is marked
/// `false`. A position without a mark stays.
pub open spec fn stays(keep: Seq<bool>, i: int) -> bool {
    !(0 <= i < keep.len()) || keep[i]
}

/// The items that stay, in their former order.
pub open spec fn select<T>(items: Seq<T>, keep: Seq<bool>) -> Seq<T>
    decreases items.len(),
{
    if items.len() == 0 {
        Seq::empty()
    } else {
        let rest = select(items.drop_last(), keep);
        if stays(keep, items.len() - 1) {
            rest.push(items.last())
        } else {
            rest
        }
    }
}

/// The verdict of the predicate `wanted` on each item.
pub open spec fn verdicts<T>(items: Seq<T>, wanted: spec_fn(T) -> bool) -> Seq<bool> {
    Seq::new(items.len(), |i: int| wanted(items[i]))
}

/// `refs` refers to the items of `items` in the order that `order` lists.
pub open spec fn refers_in_order<T>(refs: Seq<&T>, items: Seq<T>, order: Seq<usize>) -> bool {
    &&& refs.len() == order.len()
    &&& forall|i: int| 0 <= i < refs.len() ==> *(#[trigger] refs[i]) == items[order[i] as int]
}

/// Adds `item` at the end of `items`.
pub(crate) fn push_back<T>(items: &mut Vec<T>, item: T)
    ensures
        final(items)@ == old(items)@.push(item),
        final(items)@.len() == old(items)@.len() + 1,
        final(items)@.drop_last() == old(items)@,
        final(items)@.last() == item,
{
    items.push(item);
    assert(items@.drop_last() =~= old(items)@);
}

/// Removes the items that are marked `false` and keeps the others in their
/// order. The store is walked once.
pub(crate) fn retain_marked<T>(items: &mut Vec<T>, keep: &Vec<bool>)
    ensures
        final(items)@ == select(old(items)@, keep@),
{
    let ghost all = items@;
    let total = items.len();
    let mut source: Vec<T> = Vec::new();
    std::mem::swap(items, &mut source);
    let mut stack: Vec<T> = Vec::new();
    while source.len() > 0
        invariant
            source@.len() + stack@.len() == all.len(),
            forall|j: int| 0 <= j < source@.len() ==> source@[j] == all[j],
            forall|j: int| 0 <= j < stack@.len() ==> stack@[j] == all[all.len() - 1 - j],
        decreases source@.len(),
    {
        let item = source.pop().unwrap();
        stack.push(item);
    }
    let mut i: usize = 0;
    assert(all.subrange(0, 0) =~= Seq::<T>::empty());
    while stack.len() > 0
        invariant
            i + stack@.len() == all.len(),
            all.len() == total,
            forall|j: int| 0 <= j < stack@.len() ==> stack@[j] == all[all.len() - 1 - j],
            items@ == select(all.subrange(0, i as int), keep@),
        decreases stack@.len(),
    {
        let item = stack.pop().unwrap();
        assert(item == all[i as int]);
        assert(all.subrange(0, i + 1).drop_last() =~= all.subrange(0, i as int));
        assert(all.subrange(0, i + 1).last() == all[i as int]);
        if i >= keep.len() || keep[i] {
            items.push(item);
        }
        i = i + 1;
    }
    assert(all.subrange(0, all.len() as int) =~= all);
}

/// Borrows the items at the positions that `order` lists, in the order of the
/// list.
pub(crate) fn arrange_refs<'a, T>(items: &'a Vec<T>, order: &Vec<usize>) -> (refs: Vec<&'a T>)
    requires
        forall|i: int| 0 <= i < order@.len() ==> (#[trigger] order@[i]) < items@.len(),
    ensures
        refers_in_order(refs@, items@, order@),
{
    let mut refs: Vec<&'a T> = Vec::new();
    let mut i: usize = 0;
    while i < order.len()
        invariant
            i <= order@.len(),
            refs@.len() == i,
            forall|j: int| 0 <= j < order@.len() ==> (#[trigger] order@[j]) < items@.len(),
            forall|j: int| 0 <= j < i ==> *(#[trigger] refs@[j]) == items@[order@[j] as int],
        decreases order@.len() - i,
    {
        refs.push(&items[order[i]]);
        i = i + 1;
    }
    refs
}

/// Borrows every item exclusively, in the order of the store. What is written
/// through a borrow ends up at its position in the store.
pub(crate) fn borrow_all<'a, T>(items: &'a mut Vec<T>) -> (refs: Vec<&'a mut T>)
    ensures
        refs@.len() == old(items)@.len(),
        forall|i: int| 0 <= i < refs@.len() ==> *(#[trigger] refs@[i]) == old(items)@[i],
        final(items)@.len() == old(items)@.len(),
        forall|i: int| 0 <= i < refs@.len() ==> final(items)@[i] == *final(#[trigger] refs@[i]),
{
    let ghost all = items@;
    let mut refs: Vec<&'a mut T> = Vec::new();
    let mut rest: &'a mut [T] = items.as_mut_slice();
    let ghost end = final(rest)@;
    while rest.len() > 0
        invariant
            refs@.len() + rest@.len() == all.len(),
            rest@ == all.subrange(refs@.len() as int, all.len() as int),
            forall|j: int| 0 <= j < refs@.len() ==> *(#[trigger] refs@[j]) == all[j],
            end.len() == refs@.len() + final(rest)@.len(),
            forall|j: int| 0 <= j < refs@.len() ==> end[j] == *final(#[trigger] refs@[j]),
            forall|j: int| 0 <= j < final(rest)@.len() ==> end[refs@.len() + j] == #[trigger] final(rest)@[j],
        decreases rest@.len(),
    {
        let ghost before = refs@;
        let ghost rest_end = final(rest)@;
        let (head, tail) = rest.split_at_mut(1);
        let ghost head_end = final(head)@;
        let first = head.first_mut().unwrap();
        let ghost first_end = *final(first);
        assert(head_end =~= seq![first_end]);
        refs.push(first);
        assert(rest_end =~= head_end + final(tail)@);
        proof {
            let tail_end = final(tail)@;
            assert forall|j: int| 0 <= j < refs@.len() implies end[j] == *final(#[trigger] refs@[j]) by {
                if j < before.len() {
                    assert(refs@[j] == before[j]);
                } else {
                    assert(*final(refs@[j]) == first_end);
                    assert(end[before.len() as int + 0] == rest_end[0]);
                    assert(rest_end[0] == head_end[0]);
                }
            }
            assert forall|j: int| 0 <= j < tail_end.len() implies end[refs@.len() + j]
                == #[trigger] tail_end[j] by {
                assert(end[before.len() as int + (j + 1)] == rest_end[j + 1]);
                assert(rest_end[j + 1] == tail_end[j]);
            }
        }
        rest = tail;
    }
    refs
}

/// Turns the store around: the last item comes first.
pub(crate) fn reversed<U>(items: Vec<U>) -> (out: Vec<U>)
    ensures
        out@.len() == items@.len(),
        forall|j: int| 0 <= j < out@.len() ==> #[trigger] out@[j] == items@[items@.len() - 1 - j],
{
    let ghost all = items@;
    let mut items = items;
    let mut out: Vec<U> = Vec::new();
    while items.len() > 0
        invariant
            items@.len() + out@.len() == all.len(),
            forall|j: int| 0 <= j < items@.len() ==> items@[j] == all[j],
            forall|j: int| 0 <= j < out@.len() ==> #[trigger] out@[j] == all[all.len() - 1 - j],
        decreases items@.len(),
    {
        let item = items.pop().unwrap();
        out.push(item);
    }
    out
}

/// No position is listed twice.
pub open spec fn distinct(order: Seq<usize>) -> bool {
    forall|i: int, j: int|
        #![trigger order[i], order[j]]
        0 <= i < j < order.len() ==> order[i] != order[j]
}

/// Moves the items at the positions that `order` lists into a new store, in
/// the order of the list.
pub(crate) fn arrange_owned<U>(items: Vec<U>, order: &Vec<usize>) -> (out: Vec<U>)
    requires
        distinct(order@),
        forall|i: int| 0 <= i < order@.len() ==> (#[trigger] order@[i]) < items@.len(),
    ensures
        out@.len() == order@.len(),
        forall|i: int| 0 <= i < out@.len() ==> #[trigger] out@[i] == items@[order@[i] as int],
{
    let ghost all = items@;
    let total = items.len();
    let mut items = items;
    let mut slots: Vec<Option<U>> = Vec::new();
    while items.len() > 0
        invariant
            items@.len() + slots@.len() == total,
            all.len() == total,
            forall|j: int| 0 <= j < items@.len() ==> items@[j] == all[j],
            forall|j: int| 0 <= j < slots@.len() ==> slots@[j] == Some(all[total - 1 - j]),
        decreases items@.len(),
    {
        let item = items.pop().unwrap();
        slots.push(Some(item));
    }
    let mut out: Vec<U> = Vec::new();
    let mut i: usize = 0;
    while i < order.len()
        invariant
            i <= order@.len(),
            out@.len() == i,
            slots@.len() == total,
            all.len() == total,
            distinct(order@),
            forall|j: int| 0 <= j < order@.len() ==> (#[trigger] order@[j]) < total,
            forall|j: int|
                i <= j < order@.len() ==> slots@[total - 1 - (#[trigger] order@[j])] == Some(
                    all[order@[j] as int],
                ),
            forall|j: int| 0 <= j < i ==> #[trigger] out@[j] == all[order@[j] as int],
        decreases order@.len() - i,
    {
        assert(order@[i as int] < total);
        let at = total - 1 - order[i];
        slots.push(None);
        let slot = slots.swap_remove(at);
        proof {
            assert forall|j: int| i + 1 <= j < order@.len() implies slots@[total - 1
                - (#[trigger] order@[j])] == Some(all[order@[j] as int]) by {
                assert(order@[i as int] != order@[j]);
            }
        }
        out.push(slot.unwrap());
        i = i + 1;
    }
    out
}

/// Where every item stays, nothing is removed.
pub proof fn lemma_select_all<T>(items: Seq<T>, keep: Seq<bool>)
    requires
        forall|i: int| 0 <= i < items.len() ==> stays(keep, i),
    ensures
        select(items, keep) == items,
    decreases items.len(),
{
    if items.len() > 0 {
        lemma_select_all(items.drop_last(), keep);
        assert(items.drop_last().push(items.last()) =~= items);
    } else {
        assert(items =~= Seq::<T>::empty());
    }
}

/// What a predicate let through once, it lets through again.
pub proof fn lemma_selected_are_wanted<T>(items: Seq<T>, wanted: spec_fn(T) -> bool)
    ensures
        forall|j: int|
            0 <= j < select(items, verdicts(items, wanted)).len() ==> wanted(
                #[trigger] select(items, verdicts(items, wanted))[j],
            ),
    decreases items.len(),
{
    if items.len() > 0 {
        let shorter = items.drop_last();
        lemma_selected_are_wanted(shorter, wanted);
        lemma_select_ignores_later_marks(
            shorter,
            verdicts(shorter, wanted),
            verdicts(items, wanted),
        );
    }
}

/// Marks only count where there is an item: two lists of marks that agree on
/// the positions of the items remove the same items.
pub proof fn lemma_select_ignores_later_marks<T>(
    items: Seq<T>,
    keep: Seq<bool>,
    other: Seq<bool>,
)
    requires
        forall|i: int| 0 <= i < items.len() ==> stays(keep, i) == stays(other, i),
    ensures
        select(items, keep) == select(items, other),
    decreases items.len(),
{
    if items.len() > 0 {
        lemma_select_ignores_later_marks(items.drop_last(), keep, other);
    }
}

/// Removing by the same predicate a second time removes nothing.
pub proof fn lemma_select_twice<T>(items: Seq<T>, wanted: spec_fn(T) -> bool)
    ensures
        ({
            let once = select(items, verdicts(items, wanted));
            select(once, verdicts(once, wanted)) == once
        }),
{
    let once = select(items, verdicts(items, wanted));
    lemma_selected_are_wanted(items, wanted);
    lemma_select_all(once, verdicts(once, wanted));
}

/// Every item that stays was in the store, at a position that was not
/// marked `false`. Returns such a position for the item at `j`.
pub proof fn lemma_selected_was_kept<T>(items: Seq<T>, keep: Seq<bool>, j: int) -> (k: int)
    requires
        0 <= j < select(items, keep).len(),
    ensures
        0 <= k < items.len(),
        stays(keep, k),
        select(items, keep)[j] == items[k],
    decreases items.len(),
{
    let shorter = items.drop_last();
    if j < select(shorter, keep).len() {
        lemma_selected_was_kept(shorter, keep, j)
    } else {
        items.len() - 1
    }
}

} // verus!
