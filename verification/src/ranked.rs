//! Lists of items that have an order.

use vstd::prelude::*;

verus! {

/// What can be put in order and told apart.
pub trait Ranked: DeepView + Sized {
    /// The first item comes strictly before the second.
    spec fn before(a: Self::V, b: Self::V) -> bool;

    fn comes_before(&self, other: &Self) -> (r: bool)
        ensures
            r == Self::before(self.deep_view(), other.deep_view()),
    ;

    fn is_same(&self, other: &Self) -> (r: bool)
        ensures
            r == (self.deep_view() == other.deep_view()),
    ;

    /// No two items come before each other, and what does not come before the next item,
    /// which does not come before a third, does not come before the third either.
    proof fn before_is_an_order(a: Self::V, b: Self::V, c: Self::V)
        ensures
            !(Self::before(a, b) && Self::before(b, a)),
            !Self::before(a, b) && !Self::before(b, c) ==> !Self::before(a, c),
    ;
}

/// The place of an item among the first `i` of a list: behind the last one that it does
/// not come before.
pub open spec fn place_of<T: Ranked>(list: Seq<T::V>, item: T::V, i: int) -> int
    decreases i,
{
    if i <= 0 || !T::before(item, list[i - 1]) {
        i
    } else {
        place_of::<T>(list, item, i - 1)
    }
}

/// The list with one more item at its place.
pub open spec fn placed<T: Ranked>(list: Seq<T::V>, item: T::V) -> Seq<T::V> {
    list.insert(place_of::<T>(list, item, list.len() as int), item)
}

/// The list with the items from `i` on at their places.
pub open spec fn ordered_from<T: Ranked>(items: Seq<T::V>, i: int, list: Seq<T::V>) -> Seq<T::V>
    decreases items.len() - i,
{
    if i < 0 || i >= items.len() {
        list
    } else {
        ordered_from::<T>(items, i + 1, placed::<T>(list, items[i]))
    }
}

/// The items in order; items of equal rank stay in the order in which they were given.
pub open spec fn ordered<T: Ranked>(items: Seq<T::V>) -> Seq<T::V> {
    ordered_from::<T>(items, 0, seq![])
}

/// The items from `i` on, without those that equal the one before them.
pub open spec fn distinct_from<V>(items: Seq<V>, i: int) -> Seq<V>
    decreases items.len() - i,
{
    if i < 0 || i >= items.len() {
        seq![]
    } else if i > 0 && items[i] == items[i - 1] {
        distinct_from(items, i + 1)
    } else {
        seq![items[i]] + distinct_from(items, i + 1)
    }
}

/// The items, of equal neighbours only the first.
pub open spec fn distinct<V>(items: Seq<V>) -> Seq<V> {
    distinct_from(items, 0)
}

/// No item comes before one in front of it.
pub open spec fn in_order<T: Ranked>(list: Seq<T::V>) -> bool {
    forall|i: int, j: int|
        0 <= i < j < list.len() ==> !T::before(#[trigger] list[j], #[trigger] list[i])
}

proof fn place_splits<T: Ranked>(list: Seq<T::V>, item: T::V, i: int)
    requires
        0 <= i <= list.len(),
        forall|k: int| i <= k < list.len() ==> T::before(item, #[trigger] list[k]),
    ensures
        ({
            let place = place_of::<T>(list, item, i);
            &&& 0 <= place <= i
            &&& place > 0 ==> !T::before(item, list[place - 1])
            &&& forall|k: int| place <= k < list.len() ==> T::before(item, #[trigger] list[k])
        }),
    decreases i,
{
    if i > 0 && T::before(item, list[i - 1]) {
        place_splits::<T>(list, item, i - 1);
    }
}

proof fn placed_is_in_order<T: Ranked>(list: Seq<T::V>, item: T::V)
    requires
        in_order::<T>(list),
    ensures
        in_order::<T>(placed::<T>(list, item)),
{
    let place = place_of::<T>(list, item, list.len() as int);
    place_splits::<T>(list, item, list.len() as int);
    let next = placed::<T>(list, item);
    assert forall|i: int, j: int| 0 <= i < j < next.len() implies !T::before(
        #[trigger] next[j],
        #[trigger] next[i],
    ) by {
        let a = if i < place {
            i
        } else {
            i - 1
        };
        let b = if j < place {
            j
        } else {
            j - 1
        };
        if i == place {
            T::before_is_an_order(item, list[b], item);
        } else if j == place {
            if i < place - 1 {
                assert(!T::before(list[place - 1], list[i]));
                T::before_is_an_order(item, list[place - 1], list[i]);
            }
        } else {
            assert(next[i] == list[a] && next[j] == list[b]);
        }
    }
}

proof fn ordered_from_is_in_order<T: Ranked>(items: Seq<T::V>, i: int, list: Seq<T::V>)
    requires
        0 <= i <= items.len(),
        in_order::<T>(list),
        list.to_multiset() =~= items.take(i).to_multiset(),
    ensures
        in_order::<T>(ordered_from::<T>(items, i, list)),
        ordered_from::<T>(items, i, list).to_multiset() =~= items.to_multiset(),
    decreases items.len() - i,
{
    broadcast use vstd::seq_lib::group_to_multiset_ensures;

    if i < items.len() {
        placed_is_in_order::<T>(list, items[i]);
        place_splits::<T>(list, items[i], list.len() as int);
        let place = place_of::<T>(list, items[i], list.len() as int);
        vstd::seq_lib::to_multiset_insert(list, place, items[i]);
        assert(items.take(i + 1) =~= items.take(i).push(items[i]));
        ordered_from_is_in_order::<T>(items, i + 1, placed::<T>(list, items[i]));
    } else {
        assert(items.take(i) =~= items);
    }
}

/// Ordering brings every item to its place and loses, repeats and invents none.
pub proof fn ordered_is_in_order<T: Ranked>(items: Seq<T::V>)
    ensures
        in_order::<T>(ordered::<T>(items)),
        ordered::<T>(items).to_multiset() =~= items.to_multiset(),
{
    broadcast use vstd::seq_lib::group_to_multiset_ensures;

    assert(items.take(0) =~= seq![]);
    ordered_from_is_in_order::<T>(items, 0, seq![]);
}

/// Puts a list in order.
pub fn sort<T: Ranked>(items: &mut Vec<T>)
    ensures
        final(items).deep_view() == ordered::<T>(old(items).deep_view()),
{
    let ghost all = items.deep_view();
    let ghost mut list: Seq<T::V> = seq![];
    let count: usize = items.len();
    let mut i: usize = 0;
    while i < count
        invariant
            i <= count,
            all.len() == count,
            items@.len() == count,
            list.len() == i,
            items.deep_view() =~= list + all.skip(i as int),
            ordered::<T>(all) == ordered_from::<T>(all, i as int, list),
        decreases count - i,
    {
        let ghost present = items.deep_view();
        assert(items@[i as int].deep_view() == present[i as int]);
        assert(present[i as int] == all[i as int]);
        let item = items.remove(i);
        assert(items.deep_view() =~= present.remove(i as int));
        assert(items.deep_view() =~= list + all.skip(i + 1));
        let mut place: usize = i;
        while place > 0 && item.comes_before(&items[place - 1])
            invariant
                place <= i,
                list.len() == i,
                items@.len() >= i,
                items.deep_view() == list + all.skip(i + 1),
                place_of::<T>(list, item.deep_view(), i as int) == place_of::<T>(
                    list,
                    item.deep_view(),
                    place as int,
                ),
            decreases place,
        {
            assert(items@[place - 1].deep_view() == items.deep_view()[place - 1]);
            place -= 1;
        }
        if place > 0 {
            assert(items@[place - 1].deep_view() == items.deep_view()[place - 1]);
        }
        let ghost rest = items.deep_view();
        let ghost value = item.deep_view();
        items.insert(place, item);
        assert(items.deep_view() =~= rest.insert(place as int, value));
        proof {
            assert(placed::<T>(list, value) == list.insert(place as int, value));
            list = list.insert(place as int, value);
        }
        i += 1;
    }
    assert(items.deep_view() =~= list);
}

/// Takes out the items that equal the one before them.
pub fn dedup<T: Ranked>(items: &mut Vec<T>)
    ensures
        final(items).deep_view() == distinct(old(items).deep_view()),
{
    let ghost all = items.deep_view();
    let ghost mut seen: int = 0;
    let mut i: usize = 0;
    let ghost mut kept: Seq<T::V> = seq![];
    while i < items.len()
        invariant
            0 <= i <= items@.len(),
            i <= seen <= all.len(),
            kept.len() == i,
            items.deep_view() =~= kept + all.skip(seen),
            seen > 0 <==> i > 0,
            i > 0 ==> kept.last() == all[seen - 1],
            distinct(all) =~= kept + distinct_from(all, seen),
        decreases items@.len() - i,
    {
        let ghost present = items.deep_view();
        assert(present[i as int] == items@[i as int].deep_view());
        assert(present[i as int] == all[seen]);
        if i > 0 {
            assert(present[i - 1] == items@[i - 1].deep_view());
        }
        if i > 0 && items[i].is_same(&items[i - 1]) {
            items.remove(i);
            assert(items.deep_view() =~= present.remove(i as int));
        } else {
            proof {
                kept = kept.push(all[seen]);
            }
            i += 1;
        }
        proof {
            seen = seen + 1;
        }
    }
}

/// Two lists hold the same items.
pub fn same_items<T: Ranked>(a: &Vec<T>, b: &Vec<T>) -> (r: bool)
    ensures
        r == (a.deep_view() == b.deep_view()),
{
    let ghost left = a.deep_view();
    let ghost right = b.deep_view();
    if a.len() != b.len() {
        assert(left.len() != right.len());
        return false;
    }
    let mut i: usize = 0;
    while i < a.len()
        invariant
            i <= a@.len(),
            a@.len() == b@.len(),
            left == a.deep_view(),
            right == b.deep_view(),
            forall|k: int| 0 <= k < i ==> left[k] == right[k],
        decreases a@.len() - i,
    {
        assert(left[i as int] == a@[i as int].deep_view());
        assert(right[i as int] == b@[i as int].deep_view());
        if !a[i].is_same(&b[i]) {
            return false;
        }
        i += 1;
    }
    assert(left =~= right);
    true
}

proof fn distinct_from_keeps_order<T: Ranked>(items: Seq<T::V>, i: int)
    requires
        in_order::<T>(items),
        0 <= i <= items.len(),
    ensures
        in_order::<T>(distinct_from(items, i)),
        distinct_from(items, i).len() <= items.len() - i,
        forall|k: int|
            0 <= k < distinct_from(items, i).len() ==> exists|j: int|
                i <= j < items.len() && items[j] == #[trigger] distinct_from(items, i)[k],
    decreases items.len() - i,
{
    if i < items.len() {
        distinct_from_keeps_order::<T>(items, i + 1);
        let rest = distinct_from(items, i + 1);
        let all = distinct_from(items, i);
        if i > 0 && items[i] == items[i - 1] {
        } else {
            assert forall|k: int| 0 <= k < all.len() implies exists|j: int|
                i <= j < items.len() && items[j] == #[trigger] all[k] by {
                if k == 0 {
                    assert(items[i] == all[0]);
                } else {
                    assert(all[k] == rest[k - 1]);
                }
            }
            assert forall|a: int, b: int| 0 <= a < b < all.len() implies !T::before(
                #[trigger] all[b],
                #[trigger] all[a],
            ) by {
                assert(all[b] == rest[b - 1]);
                if a == 0 {
                    let j = choose|j: int| i + 1 <= j < items.len() && items[j] == rest[b - 1];
                    assert(!T::before(items[j], items[i]));
                } else {
                    assert(all[a] == rest[a - 1]);
                }
            }
        }
    }
}

/// Leaving out repeated items keeps a list in order and makes it no longer.
pub proof fn distinct_keeps_order<T: Ranked>(items: Seq<T::V>)
    requires
        in_order::<T>(items),
    ensures
        in_order::<T>(distinct(items)),
        distinct(items).len() <= items.len(),
{
    distinct_from_keeps_order::<T>(items, 0);
}

/// Items in order, of equal neighbours only the first, are in order and no more than
/// there were.
pub proof fn tidying_orders_and_bounds<T: Ranked>(items: Seq<T::V>)
    ensures
        in_order::<T>(distinct(ordered::<T>(items))),
        distinct(ordered::<T>(items)).len() <= items.len(),
{
    broadcast use vstd::seq_lib::group_to_multiset_ensures;

    ordered_is_in_order::<T>(items);
    distinct_keeps_order::<T>(ordered::<T>(items));
    assert(ordered::<T>(items).to_multiset().len() == items.to_multiset().len());
}

proof fn distinct_from_keeps_items<V>(items: Seq<V>, i: int)
    requires
        0 <= i <= items.len(),
    ensures
        forall|k: int|
            i <= k < items.len() ==> distinct_from(items, i).contains(#[trigger] items[k]) || (i > 0
                && items[k] == items[i - 1]),
        forall|x: V| #[trigger] distinct_from(items, i).contains(x) ==> items.contains(x),
    decreases items.len() - i,
{
    let all = distinct_from(items, i);
    if i < items.len() {
        distinct_from_keeps_items(items, i + 1);
        let rest = distinct_from(items, i + 1);
        if i > 0 && items[i] == items[i - 1] {
            assert(all == rest);
        } else {
            assert(all == seq![items[i]] + rest);
            assert(all[0] == items[i]);
            assert forall|k: int| i <= k < items.len() implies all.contains(
                #[trigger] items[k],
            ) by {
                if k > i && rest.contains(items[k]) {
                    let n = rest.index_of(items[k]);
                    assert(all[n + 1] == items[k]);
                }
            }
            assert forall|x: V| #[trigger] all.contains(x) implies items.contains(x) by {
                let n = all.index_of(x);
                if n > 0 {
                    assert(rest[n - 1] == x);
                    assert(rest.contains(x));
                } else {
                    assert(items[i] == x);
                }
            }
        }
    }
}

/// Where of equal neighbours only the first stays, every item stays.
pub proof fn distinct_keeps_items<V>(items: Seq<V>)
    ensures
        forall|x: V|
            #![trigger items.contains(x)]
            #![trigger distinct(items).contains(x)]
            distinct(items).contains(x) <==> items.contains(x),
{
    distinct_from_keeps_items(items, 0);
    assert forall|x: V| #[trigger] items.contains(x) implies distinct(items).contains(x) by {
        assert(items[items.index_of(x)] == x);
    }
}

/// Items in order, of equal neighbours only the first, are the items that there were.
pub proof fn tidying_keeps_items<T: Ranked>(items: Seq<T::V>)
    ensures
        forall|x: T::V|
            #![trigger items.contains(x)]
            #![trigger distinct(ordered::<T>(items)).contains(x)]
            distinct(ordered::<T>(items)).contains(x) <==> items.contains(x),
{
    broadcast use vstd::seq_lib::group_to_multiset_ensures;

    let list = ordered::<T>(items);
    ordered_is_in_order::<T>(items);
    distinct_from_keeps_items(list, 0);
    assert forall|x: T::V| distinct(list).contains(x) <==> #[trigger] items.contains(x) by {
        assert(list.to_multiset().count(x) == items.to_multiset().count(x));
        if items.contains(x) {
            assert(list.contains(x));
            let k = list.index_of(x);
            assert(list[k] == x);
        }
        if distinct(list).contains(x) {
            assert(list.contains(x));
        }
    }
}

} // verus!
