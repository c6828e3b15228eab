//! The order in which a scene is read: ascending by z-layer, and among equal
//! layers in the order of insertion.
//!
//! The order is a sequence of positions into the backing store. It is stated
//! as a predicate over the layers that the elements reported, and computed by
//! a stable merge sort.

use crate::backing::distinct;
use vstd::prelude::*;

verus! {

/// The element at position `a` is read before the one at position `b`: its
/// layer is lower, or the layers are equal and it was inserted earlier.
pub open spec fn precedes(keys: Seq<i32>, a: int, b: int) -> bool {
    keys[a] < keys[b] || (keys[a] == keys[b] && a < b)
}

/// The position `a` is among the entries of `order`.
pub open spec fn occurs(order: Seq<usize>, a: int) -> bool {
    exists|i: int| 0 <= i < order.len() && #[trigger] order[i] == a
}

/// `order` lists every position from `lo` up to `hi` exactly once, each
/// before all the positions that it precedes.
pub open spec fn is_range_order(keys: Seq<i32>, lo: int, hi: int, order: Seq<usize>) -> bool {
    &&& order.len() == hi - lo
    &&& forall|i: int| 0 <= i < order.len() ==> lo <= (#[trigger] order[i]) < hi
    &&& forall|i: int, j: int|
        #![trigger order[i], order[j]]
        0 <= i < j < order.len() ==> precedes(keys, order[i] as int, order[j] as int)
    &&& forall|a: int| lo <= a < hi ==> #[trigger] occurs(order, a)
}

/// `order` lists every position of `keys` exactly once, each before all the
/// positions that it precedes.
pub open spec fn is_layer_order(keys: Seq<i32>, order: Seq<usize>) -> bool {
    is_range_order(keys, 0, keys.len() as int, order)
}

/// Merges the read orders of two neighbouring ranges of positions into the
/// read order of both. Between equal layers the left range goes first.
fn merge_orders(
    keys: &Vec<i32>,
    lo: usize,
    mid: usize,
    hi: usize,
    left: &Vec<usize>,
    right: &Vec<usize>,
) -> (order: Vec<usize>)
    requires
        lo <= mid <= hi <= keys@.len(),
        is_range_order(keys@, lo as int, mid as int, left@),
        is_range_order(keys@, mid as int, hi as int, right@),
    ensures
        is_range_order(keys@, lo as int, hi as int, order@),
{
    let mut order: Vec<usize> = Vec::new();
    let mut i: usize = 0;
    let mut j: usize = 0;
    while i < left.len() || j < right.len()
        invariant
            lo <= mid <= hi <= keys@.len(),
            is_range_order(keys@, lo as int, mid as int, left@),
            is_range_order(keys@, mid as int, hi as int, right@),
            i <= left@.len(),
            j <= right@.len(),
            order@.len() == i + j,
            forall|k: int| 0 <= k < order@.len() ==> lo <= (#[trigger] order@[k]) < hi,
            forall|k: int, l: int|
                #![trigger order@[k], order@[l]]
                0 <= k < l < order@.len() ==> precedes(keys@, order@[k] as int, order@[l] as int),
            forall|k: int, l: int|
                #![trigger order@[k], left@[l]]
                0 <= k < order@.len() && i <= l < left@.len() ==> precedes(
                    keys@,
                    order@[k] as int,
                    left@[l] as int,
                ),
            forall|k: int, l: int|
                #![trigger order@[k], right@[l]]
                0 <= k < order@.len() && j <= l < right@.len() ==> precedes(
                    keys@,
                    order@[k] as int,
                    right@[l] as int,
                ),
            forall|l: int| 0 <= l < i ==> occurs(order@, (#[trigger] left@[l]) as int),
            forall|l: int| 0 <= l < j ==> occurs(order@, (#[trigger] right@[l]) as int),
        decreases left@.len() - i + right@.len() - j,
    {
        let ghost before = order@;
        let from_left = if i >= left.len() {
            false
        } else if j >= right.len() {
            true
        } else {
            keys[left[i]] <= keys[right[j]]
        };
        let next = if from_left {
            left[i]
        } else {
            right[j]
        };
        order.push(next);
        proof {
            assert forall|l: int| 0 <= l < i implies occurs(order@, (#[trigger] left@[l]) as int) by {
                assert(occurs(before, left@[l] as int));
                let k = choose|k: int| 0 <= k < before.len() && #[trigger] before[k] == left@[l];
                assert(order@[k] == left@[l]);
            }
            assert forall|l: int| 0 <= l < j implies occurs(order@, (#[trigger] right@[l]) as int) by {
                assert(occurs(before, right@[l] as int));
                let k = choose|k: int| 0 <= k < before.len() && #[trigger] before[k] == right@[l];
                assert(order@[k] == right@[l]);
            }
            assert(order@[before.len() as int] == next);
            if from_left {
                assert(occurs(order@, left@[i as int] as int));
                assert forall|k: int, l: int|
                    #![trigger order@[k], right@[l]]
                    0 <= k < order@.len() && j <= l < right@.len() implies precedes(
                    keys@,
                    order@[k] as int,
                    right@[l] as int,
                ) by {
                    if k == before.len() {
                        assert(left@[i as int] < mid <= right@[l]);
                        if l > j {
                            assert(precedes(keys@, right@[j as int] as int, right@[l] as int));
                        }
                    } else {
                        assert(order@[k] == before[k]);
                    }
                }
                assert forall|k: int, l: int|
                    #![trigger order@[k], left@[l]]
                    0 <= k < order@.len() && i + 1 <= l < left@.len() implies precedes(
                    keys@,
                    order@[k] as int,
                    left@[l] as int,
                ) by {
                    if k == before.len() {
                        assert(precedes(keys@, left@[i as int] as int, left@[l] as int));
                    } else {
                        assert(order@[k] == before[k]);
                    }
                }
            } else {
                assert(occurs(order@, right@[j as int] as int));
                assert forall|k: int, l: int|
                    #![trigger order@[k], left@[l]]
                    0 <= k < order@.len() && i <= l < left@.len() implies precedes(
                    keys@,
                    order@[k] as int,
                    left@[l] as int,
                ) by {
                    if k == before.len() {
                        if l > i {
                            assert(precedes(keys@, left@[i as int] as int, left@[l] as int));
                        }
                    } else {
                        assert(order@[k] == before[k]);
                    }
                }
                assert forall|k: int, l: int|
                    #![trigger order@[k], right@[l]]
                    0 <= k < order@.len() && j + 1 <= l < right@.len() implies precedes(
                    keys@,
                    order@[k] as int,
                    right@[l] as int,
                ) by {
                    if k == before.len() {
                        assert(precedes(keys@, right@[j as int] as int, right@[l] as int));
                    } else {
                        assert(order@[k] == before[k]);
                    }
                }
            }
            assert forall|k: int, l: int|
                #![trigger order@[k], order@[l]]
                0 <= k < l < order@.len() implies precedes(
                keys@,
                order@[k] as int,
                order@[l] as int,
            ) by {
                assert(order@[k] == before[k]);
                if l < before.len() {
                    assert(order@[l] == before[l]);
                } else if from_left {
                    assert(precedes(keys@, before[k] as int, left@[i as int] as int));
                } else {
                    assert(precedes(keys@, before[k] as int, right@[j as int] as int));
                }
            }
            assert forall|k: int| 0 <= k < order@.len() implies lo <= (#[trigger] order@[k]) < hi by {
                if k < before.len() {
                    assert(order@[k] == before[k]);
                }
            }
        }
        if from_left {
            i = i + 1;
        } else {
            j = j + 1;
        }
    }
    proof {
        assert forall|a: int| lo <= a < hi implies #[trigger] occurs(order@, a) by {
            if a < mid {
                assert(occurs(left@, a));
                let l = choose|l: int| 0 <= l < left@.len() && #[trigger] left@[l] == a;
                assert(occurs(order@, left@[l] as int));
            } else {
                assert(occurs(right@, a));
                let l = choose|l: int| 0 <= l < right@.len() && #[trigger] right@[l] == a;
                assert(occurs(order@, right@[l] as int));
            }
        }
    }
    order
}

/// The read order of the positions from `lo` up to `hi`, by a stable merge
/// sort.
fn range_order(keys: &Vec<i32>, lo: usize, hi: usize) -> (order: Vec<usize>)
    requires
        lo <= hi <= keys@.len(),
    ensures
        is_range_order(keys@, lo as int, hi as int, order@),
    decreases hi - lo,
{
    if hi - lo == 0 {
        Vec::new()
    } else if hi - lo == 1 {
        let mut order: Vec<usize> = Vec::new();
        order.push(lo);
        assert(occurs(order@, lo as int)) by {
            assert(order@[0] == lo);
        }
        order
    } else {
        let mid = lo + (hi - lo) / 2;
        let left = range_order(keys, lo, mid);
        let right = range_order(keys, mid, hi);
        merge_orders(keys, lo, mid, hi, &left, &right)
    }
}

/// Computes the read order for the given layers. The sort is stable: a
/// position moves in front of another only if its layer is strictly lower.
pub fn layer_order(keys: &Vec<i32>) -> (order: Vec<usize>)
    ensures
        is_layer_order(keys@, order@),
{
    range_order(keys, 0, keys.len())
}

/// Where `order` lists the position `a`.
pub open spec fn place_of(order: Seq<usize>, a: int) -> int {
    choose|i: int| 0 <= i < order.len() && #[trigger] order[i] == a
}

/// Whatever the order of insertion, an element is read before every element
/// that it precedes: before those on a higher layer, and before those on its
/// own layer that were inserted later.
pub proof fn lemma_lower_layer_is_read_first(keys: Seq<i32>, order: Seq<usize>, a: int, b: int)
    requires
        is_layer_order(keys, order),
        0 <= a < keys.len(),
        0 <= b < keys.len(),
        precedes(keys, a, b),
    ensures
        0 <= place_of(order, a) < place_of(order, b) < order.len(),
        order[place_of(order, a)] == a,
        order[place_of(order, b)] == b,
{
    assert(occurs(order, a));
    assert(occurs(order, b));
    let i = place_of(order, a);
    let j = place_of(order, b);
    if j < i {
        assert(precedes(keys, order[j] as int, order[i] as int));
    }
}

/// A read order lists no position twice.
pub proof fn lemma_layer_order_is_distinct(keys: Seq<i32>, order: Seq<usize>)
    requires
        is_layer_order(keys, order),
    ensures
        distinct(order),
{
    assert forall|i: int, j: int|
        #![trigger order[i], order[j]]
        0 <= i < j < order.len() implies order[i] != order[j] by {
        assert(precedes(keys, order[i] as int, order[j] as int));
    }
}

/// Two read orders for the same layers agree on their first `n` entries.
proof fn lemma_orders_agree_upto(keys: Seq<i32>, first: Seq<usize>, second: Seq<usize>, n: int)
    requires
        is_layer_order(keys, first),
        is_layer_order(keys, second),
        0 <= n <= keys.len(),
    ensures
        forall|i: int| 0 <= i < n ==> first[i] == second[i],
    decreases n,
{
    if n > 0 {
        lemma_orders_agree_upto(keys, first, second, n - 1);
        let i = n - 1;
        let a = first[i] as int;
        let b = second[i] as int;
        if a != b {
            if precedes(keys, a, b) {
                assert(occurs(second, a));
                let j = choose|j: int| 0 <= j < second.len() && #[trigger] second[j] == a;
                if j < i {
                    assert(first[j] == second[j]);
                    assert(precedes(keys, first[j] as int, first[i] as int));
                } else if j > i {
                    assert(precedes(keys, second[i] as int, second[j] as int));
                }
            } else {
                assert(precedes(keys, b, a));
                assert(occurs(first, b));
                let j = choose|j: int| 0 <= j < first.len() && #[trigger] first[j] == b;
                if j < i {
                    assert(first[j] == second[j]);
                    assert(precedes(keys, second[j] as int, second[i] as int));
                } else if j > i {
                    assert(precedes(keys, first[i] as int, first[j] as int));
                }
            }
        }
    }
}

/// The layers decide the read order: there is only one.
pub proof fn lemma_layer_order_is_unique(keys: Seq<i32>, first: Seq<usize>, second: Seq<usize>)
    requires
        is_layer_order(keys, first),
        is_layer_order(keys, second),
    ensures
        first == second,
{
    lemma_orders_agree_upto(keys, first, second, keys.len() as int);
    assert(first =~= second);
}

} // verus!
