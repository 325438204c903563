//! The order in which a stable sort by score visits the items of a list.
//!
//! Bins are tried from the smallest to the largest, groups are placed from the largest
//! to the smallest, and the sections that a split leaves are kept from the largest to
//! the smallest. In all three, items of equal score keep the order they came in.

use vstd::prelude::*;

verus! {

/// A score `a` must come before a score `b`: it is smaller, or larger when the order
/// is descending.
pub open spec fn goes_before(descending: bool, a: u128, b: u128) -> bool {
    if descending {
        a > b
    } else {
        a < b
    }
}

/// The item `i` comes before the item `j` in the stable order of the list `keys`: by
/// its score, or by its place in the list where the scores are equal.
pub open spec fn precedes(keys: Seq<u128>, descending: bool, i: int, j: int) -> bool {
    goes_before(descending, keys[i], keys[j]) || (keys[i] == keys[j] && i < j)
}

/// Where a new item of score `key` goes into `order`, a list of items that are already
/// in order: before the items at the end of the list that it must come before.
pub open spec fn insertion_point(
    order: Seq<int>,
    keys: Seq<u128>,
    descending: bool,
    key: u128,
) -> int
    decreases order.len(),
{
    if order.len() > 0 && goes_before(descending, key, keys[order.last()]) {
        insertion_point(order.drop_last(), keys, descending, key)
    } else {
        order.len() as int
    }
}

/// The first `count` items of `keys`, by their indices, in stable order.
pub open spec fn stable_order_upto(keys: Seq<u128>, descending: bool, count: int) -> Seq<int>
    decreases count,
{
    if count <= 0 {
        Seq::empty()
    } else {
        let earlier = stable_order_upto(keys, descending, count - 1);
        earlier.insert(insertion_point(earlier, keys, descending, keys[count - 1]), count - 1)
    }
}

/// The items of `keys`, by their indices, in stable order: ascending by score, or
/// descending, and by index among equal scores.
pub open spec fn stable_order(keys: Seq<u128>, descending: bool) -> Seq<int> {
    stable_order_upto(keys, descending, keys.len() as int)
}

/// `order` lists each of the indices `0`, ..., `count - 1` once, every one of them
/// before those that it precedes.
pub open spec fn is_stable_order(
    order: Seq<int>,
    keys: Seq<u128>,
    descending: bool,
    count: int,
) -> bool {
    &&& order.len() == count
    &&& forall|p: int| 0 <= p < order.len() ==> 0 <= #[trigger] order[p] < count
    &&& forall|p: int, q: int|
        0 <= p < q < order.len() ==> precedes(
            keys,
            descending,
            #[trigger] order[p],
            #[trigger] order[q],
        )
}

/// The items of `items` in the order that `order` gives.
pub open spec fn reordered<T>(items: Seq<T>, order: Seq<int>) -> Seq<T> {
    Seq::new(order.len(), |t: int| items[order[t]])
}

/// The indices in `order`, as mathematical integers.
pub open spec fn indices(order: Seq<usize>) -> Seq<int> {
    order.map_values(|i: usize| i as int)
}

/// The items at and after the insertion point are those that the new item must come
/// before; the item just before the insertion point is not.
pub proof fn lemma_insertion_point(order: Seq<int>, keys: Seq<u128>, descending: bool, key: u128)
    ensures
        0 <= insertion_point(order, keys, descending, key) <= order.len(),
        forall|q: int|
            insertion_point(order, keys, descending, key) <= q < order.len() ==> goes_before(
                descending,
                key,
                keys[#[trigger] order[q]],
            ),
        insertion_point(order, keys, descending, key) > 0 ==> !goes_before(
            descending,
            key,
            keys[order[insertion_point(order, keys, descending, key) - 1]],
        ),
    decreases order.len(),
{
    if order.len() > 0 && goes_before(descending, key, keys[order.last()]) {
        let shorter = order.drop_last();
        lemma_insertion_point(shorter, keys, descending, key);
        let at = insertion_point(order, keys, descending, key);
        assert forall|q: int| at <= q < order.len() implies goes_before(
            descending,
            key,
            keys[#[trigger] order[q]],
        ) by {
            if q < shorter.len() {
                assert(order[q] == shorter[q]);
            }
        }
        if at > 0 {
            assert(order[at - 1] == shorter[at - 1]);
        }
    }
}

/// The stable order is a permutation of the indices that is sorted by score and keeps
/// items of equal score in the order of the list.
pub proof fn lemma_stable_order_upto(keys: Seq<u128>, descending: bool, count: int)
    requires
        0 <= count <= keys.len(),
    ensures
        is_stable_order(stable_order_upto(keys, descending, count), keys, descending, count),
    decreases count,
{
    if count > 0 {
        let earlier = stable_order_upto(keys, descending, count - 1);
        let key = keys[count - 1];
        let at = insertion_point(earlier, keys, descending, key);
        let order = stable_order_upto(keys, descending, count);
        lemma_stable_order_upto(keys, descending, count - 1);
        lemma_insertion_point(earlier, keys, descending, key);
        assert(order == earlier.insert(at, count - 1));
        assert forall|p: int, q: int| 0 <= p < q < order.len() implies precedes(
            keys,
            descending,
            #[trigger] order[p],
            #[trigger] order[q],
        ) by {
            if q == at {
                // order[p] is an earlier item at or before `at - 1`
                if p < at - 1 {
                    assert(precedes(keys, descending, earlier[p], earlier[at - 1]));
                }
                assert(order[p] == earlier[p]);
            } else if p == at {
                assert(order[q] == earlier[q - 1]);
            } else if p < at && q > at {
                assert(order[p] == earlier[p]);
                assert(order[q] == earlier[q - 1]);
            } else if q < at {
                assert(order[p] == earlier[p]);
                assert(order[q] == earlier[q]);
            } else {
                assert(order[p] == earlier[p - 1]);
                assert(order[q] == earlier[q - 1]);
            }
        }
    }
}

/// Every one of the first `count` indices stands somewhere in their stable order.
pub proof fn lemma_stable_order_upto_has(keys: Seq<u128>, descending: bool, count: int, i: int)
    requires
        0 <= i < count <= keys.len(),
    ensures
        exists|p: int|
            0 <= p < count && #[trigger] stable_order_upto(keys, descending, count)[p] == i,
    decreases count,
{
    let earlier = stable_order_upto(keys, descending, count - 1);
    let at = insertion_point(earlier, keys, descending, keys[count - 1]);
    let order = stable_order_upto(keys, descending, count);
    lemma_stable_order_upto(keys, descending, count - 1);
    lemma_insertion_point(earlier, keys, descending, keys[count - 1]);
    if i == count - 1 {
        assert(order[at] == i);
    } else {
        lemma_stable_order_upto_has(keys, descending, count - 1, i);
        let p = choose|p: int| 0 <= p < count - 1 && #[trigger] earlier[p] == i;
        if p < at {
            assert(order[p] == i);
        } else {
            assert(order[p + 1] == i);
        }
    }
}

/// Every index of a list stands somewhere in the stable order of the list.
pub proof fn lemma_stable_order_has(keys: Seq<u128>, descending: bool, i: int)
    requires
        0 <= i < keys.len(),
    ensures
        exists|p: int|
            0 <= p < keys.len() && #[trigger] stable_order(keys, descending)[p] == i,
{
    lemma_stable_order_upto_has(keys, descending, keys.len() as int, i);
    let p = choose|p: int|
        0 <= p < keys.len() && #[trigger] stable_order_upto(
            keys,
            descending,
            keys.len() as int,
        )[p] == i;
    assert(stable_order(keys, descending)[p] == i);
}

/// The stable order of a whole list, as a permutation that is sorted and stable.
pub proof fn lemma_stable_order(keys: Seq<u128>, descending: bool)
    ensures
        is_stable_order(stable_order(keys, descending), keys, descending, keys.len() as int),
{
    lemma_stable_order_upto(keys, descending, keys.len() as int);
}

/// Whether the score `a` must come before the score `b`.
fn comes_first(descending: bool, a: u128, b: u128) -> (first: bool)
    ensures
        first == goes_before(descending, a, b),
{
    if descending {
        a > b
    } else {
        a < b
    }
}

/// Sorts the indices of `keys` by score, ascending or descending, keeping the indices of
/// equal scores in their order.
pub fn stable_order_of(keys: &Vec<u128>, descending: bool) -> (order: Vec<usize>)
    ensures
        indices(order@) == stable_order(keys@, descending),
        order@.len() == keys@.len(),
        forall|p: int| 0 <= p < order@.len() ==> #[trigger] order@[p] < keys@.len(),
{
    let mut order: Vec<usize> = Vec::new();
    assert(indices(order@) =~= stable_order_upto(keys@, descending, 0));
    for i in 0..keys.len()
        invariant
            indices(order@) == stable_order_upto(keys@, descending, i as int),
            order@.len() == i,
            forall|p: int| 0 <= p < order@.len() ==> #[trigger] order@[p] < i,
    {
        let key = keys[i];
        let ghost earlier = indices(order@);
        let mut at: usize = order.len();
        assert(earlier.take(at as int) == earlier);
        while at > 0 && comes_first(descending, key, keys[order[at - 1]])
            invariant
                0 <= at <= order@.len(),
                order@.len() == i,
                i < keys@.len(),
                key == keys@[i as int],
                earlier == indices(order@),
                forall|p: int| 0 <= p < order@.len() ==> #[trigger] order@[p] < i,
                insertion_point(earlier, keys@, descending, key) == insertion_point(
                    earlier.take(at as int),
                    keys@,
                    descending,
                    key,
                ),
            decreases at,
        {
            assert(earlier.take(at as int).drop_last() == earlier.take(at - 1));
            assert(earlier.take(at as int).last() == order@[at - 1]);
            at = at - 1;
        }
        proof {
            assert(earlier.take(order@.len() as int) == earlier);
            if at > 0 {
                assert(earlier.take(at as int).last() == order@[at - 1]);
            }
        }
        order.insert(at, i);
        assert(indices(order@) =~= earlier.insert(at as int, i as int));
    }
    order
}

} // verus!
