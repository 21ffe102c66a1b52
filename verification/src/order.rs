//! The order of items by a number that each of them has.

use vstd::prelude::*;

verus! {

/// The order with one more item, put before the first one from `i` on that has a
/// larger number.
pub open spec fn placed_from(order: Seq<int>, keys: Seq<u128>, item: int, i: int) -> Seq<int>
    decreases order.len() - i,
{
    if i < 0 || i >= order.len() {
        order.push(item)
    } else if keys[order[i]] > keys[item] {
        order.insert(i, item)
    } else {
        placed_from(order, keys, item, i + 1)
    }
}

/// The order with the items from `i` on.
pub open spec fn ordered_from(keys: Seq<u128>, i: int, order: Seq<int>) -> Seq<int>
    decreases keys.len() - i,
{
    if i < 0 || i >= keys.len() {
        order
    } else {
        ordered_from(keys, i + 1, placed_from(order, keys, i, 0))
    }
}

/// The items by their numbers, smallest first; items with equal numbers stay in
/// the order in which they were given.
pub open spec fn ordered(keys: Seq<u128>) -> Seq<int> {
    ordered_from(keys, 0, seq![])
}

/// The positions of a list as mathematical integers.
pub open spec fn positions(list: Seq<usize>) -> Seq<int> {
    Seq::new(list.len(), |i: int| list[i] as int)
}

/// Each of the first `n` items once, the numbers never falling, and of two items
/// with equal numbers the earlier one first.
pub open spec fn stable(order: Seq<int>, keys: Seq<u128>, n: int) -> bool {
    &&& order.len() == n
    &&& forall|i: int| 0 <= i < order.len() ==> 0 <= #[trigger] order[i] < n
    &&& forall|i: int, j: int|
        0 <= i < j < order.len() ==> keys[#[trigger] order[i]] < keys[#[trigger] order[j]] || (
        keys[order[i]] == keys[order[j]] && order[i] < order[j])
}

proof fn placed_is_stable(order: Seq<int>, keys: Seq<u128>, item: int, i: int)
    requires
        0 <= item < keys.len(),
        stable(order, keys, item),
        0 <= i <= order.len(),
        forall|k: int| 0 <= k < i ==> keys[#[trigger] order[k]] <= keys[item],
    ensures
        stable(placed_from(order, keys, item, i), keys, item + 1),
    decreases order.len() - i,
{
    if i < order.len() {
        if keys[order[i]] > keys[item] {
            let next = order.insert(i, item);
            assert forall|a: int, b: int| 0 <= a < b < next.len() implies keys[#[trigger] next[a]]
                < keys[#[trigger] next[b]] || (keys[next[a]] == keys[next[b]] && next[a]
                < next[b]) by {
                let c = if a < i {
                    a
                } else {
                    a - 1
                };
                let d = if b < i {
                    b
                } else {
                    b - 1
                };
                if a == i {
                    if d > i {
                        assert(keys[order[i]] <= keys[order[d]]);
                    }
                } else if b == i {
                    assert(next[a] == order[c]);
                } else {
                    assert(next[a] == order[c] && next[b] == order[d]);
                }
            }
            assert forall|k: int| 0 <= k < next.len() implies 0 <= #[trigger] next[k] < item
                + 1 by {
                if k < i {
                    assert(next[k] == order[k]);
                } else if k > i {
                    assert(next[k] == order[k - 1]);
                }
            }
        } else {
            placed_is_stable(order, keys, item, i + 1);
        }
    } else {
        let next = order.push(item);
        assert forall|a: int, b: int| 0 <= a < b < next.len() implies keys[#[trigger] next[a]]
            < keys[#[trigger] next[b]] || (keys[next[a]] == keys[next[b]] && next[a] < next[b]) by {
            assert(next[a] == order[a]);
        }
    }
}

proof fn ordered_from_is_stable(keys: Seq<u128>, i: int, order: Seq<int>)
    requires
        0 <= i <= keys.len(),
        stable(order, keys, i),
    ensures
        stable(ordered_from(keys, i, order), keys, keys.len() as int),
    decreases keys.len() - i,
{
    if i < keys.len() {
        placed_is_stable(order, keys, i, 0);
        ordered_from_is_stable(keys, i + 1, placed_from(order, keys, i, 0));
    }
}

/// The order holds every item once, never falls, and keeps items with equal numbers
/// in the order in which they were given.
pub proof fn ordered_is_stable(keys: Seq<u128>)
    ensures
        stable(ordered(keys), keys, keys.len() as int),
{
    ordered_from_is_stable(keys, 0, seq![]);
}

proof fn placed_holds(order: Seq<int>, keys: Seq<u128>, item: int, i: int, wanted: int)
    requires
        0 <= i <= order.len(),
        order.contains(wanted) || wanted == item,
    ensures
        placed_from(order, keys, item, i).contains(wanted),
    decreases order.len() - i,
{
    if i < order.len() {
        if keys[order[i]] > keys[item] {
            let next = order.insert(i, item);
            if wanted == item {
                assert(next[i] == item);
            } else {
                let k = order.index_of(wanted);
                if k < i {
                    assert(next[k] == wanted);
                } else {
                    assert(next[k + 1] == wanted);
                }
            }
        } else {
            placed_holds(order, keys, item, i + 1, wanted);
        }
    } else {
        let next = order.push(item);
        if wanted == item {
            assert(next[order.len() as int] == item);
        } else {
            assert(next[order.index_of(wanted)] == wanted);
        }
    }
}

proof fn ordered_from_holds(keys: Seq<u128>, i: int, order: Seq<int>, wanted: int)
    requires
        0 <= i <= keys.len(),
        order.contains(wanted) || i <= wanted < keys.len(),
    ensures
        ordered_from(keys, i, order).contains(wanted),
    decreases keys.len() - i,
{
    if i < keys.len() {
        if order.contains(wanted) || wanted == i {
            placed_holds(order, keys, i, 0, wanted);
        }
        ordered_from_holds(keys, i + 1, placed_from(order, keys, i, 0), wanted);
    }
}

/// Every item has a place in the order.
pub proof fn every_item_is_placed(keys: Seq<u128>, item: int)
    requires
        0 <= item < keys.len(),
    ensures
        ordered(keys).contains(item),
{
    ordered_from_holds(keys, 0, seq![], item);
}

fn place(order: &mut Vec<usize>, keys: &Vec<u128>, item: usize)
    requires
        item < keys@.len(),
        stable(positions(old(order)@), keys@, item as int),
    ensures
        positions(final(order)@) == placed_from(positions(old(order)@), keys@, item as int, 0),
        stable(positions(final(order)@), keys@, item + 1),
{
    proof {
        placed_is_stable(positions(order@), keys@, item as int, 0);
    }
    let ghost all = positions(order@);
    let mut i: usize = 0;
    while i < order.len()
        invariant
            i <= order@.len(),
            item < keys@.len(),
            *order == *old(order),
            all == positions(order@),
            stable(all, keys@, item as int),
            stable(placed_from(all, keys@, item as int, 0), keys@, item + 1),
            placed_from(all, keys@, item as int, 0) == placed_from(
                all,
                keys@,
                item as int,
                i as int,
            ),
        decreases order@.len() - i,
    {
        assert(all[i as int] == order@[i as int]);
        if keys[order[i]] > keys[item] {
            order.insert(i, item);
            assert(positions(order@) =~= all.insert(i as int, item as int));
            return;
        }
        i += 1;
    }
    order.push(item);
    assert(positions(order@) =~= all.push(item as int));
}

/// The items by their numbers, smallest first.
pub fn order(keys: &Vec<u128>) -> (r: Vec<usize>)
    ensures
        positions(r@) == ordered(keys@),
        stable(positions(r@), keys@, keys@.len() as int),
{
    let mut out: Vec<usize> = Vec::new();
    assert(positions(out@) =~= Seq::empty());
    let mut i: usize = 0;
    while i < keys.len()
        invariant
            i <= keys@.len(),
            stable(positions(out@), keys@, i as int),
            ordered(keys@) == ordered_from(keys@, i as int, positions(out@)),
        decreases keys@.len() - i,
    {
        place(&mut out, keys, i);
        i += 1;
    }
    out
}

} // verus!
