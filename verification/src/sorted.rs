//! Lists of texts in the order of strings, each text once.

use vstd::prelude::*;
use crate::text;

verus! {

/// Every text comes strictly before the ones behind it.
pub open spec fn increasing(list: Seq<Seq<char>>) -> bool {
    forall|i: int, j: int| 0 <= i < j < list.len() ==> text::before(list[i], list[j])
}

/// The list with a text at its place, looked for from `i` on; unchanged where the
/// list holds the text.
pub open spec fn inserted_from(list: Seq<Seq<char>>, item: Seq<char>, i: int) -> Seq<Seq<char>>
    decreases list.len() - i,
{
    if i < 0 || i >= list.len() {
        list.push(item)
    } else if list[i] == item {
        list
    } else if text::before(item, list[i]) {
        list.insert(i, item)
    } else {
        inserted_from(list, item, i + 1)
    }
}

/// The list with a text at its place.
pub open spec fn inserted(list: Seq<Seq<char>>, item: Seq<char>) -> Seq<Seq<char>> {
    inserted_from(list, item, 0)
}

/// Puts a text at its place.
pub fn insert(list: &mut Vec<String>, item: String)
    ensures
        final(list).deep_view() == inserted(old(list).deep_view(), item@),
{
    let ghost all = list.deep_view();
    let chars = text::to_chars(item.as_str());
    let mut i: usize = 0;
    while i < list.len()
        invariant
            i <= list@.len(),
            chars@ == item@,
            *list == *old(list),
            all == list.deep_view(),
            inserted(all, item@) == inserted_from(all, item@, i as int),
        decreases list@.len() - i,
    {
        assert(all[i as int] == list@[i as int]@);
        let present = text::to_chars(list[i].as_str());
        if text::same(present.as_slice(), chars.as_slice()) {
            return;
        }
        if text::comes_before(chars.as_slice(), present.as_slice()) {
            list.insert(i, item);
            assert(list.deep_view() =~= all.insert(i as int, item@));
            return;
        }
        i += 1;
    }
    list.push(item);
    assert(list.deep_view() =~= all.push(item@));
}

proof fn inserted_keeps_order_from(list: Seq<Seq<char>>, item: Seq<char>, i: int)
    requires
        increasing(list),
        0 <= i <= list.len(),
        forall|k: int| 0 <= k < i ==> text::before(list[k], item),
    ensures
        increasing(inserted_from(list, item, i)),
        forall|x: Seq<char>| #[trigger]
            inserted_from(list, item, i).contains(x) <==> (list.contains(x) || x == item),
    decreases list.len() - i,
{
    let next = inserted_from(list, item, i);
    if i == list.len() {
        assert forall|x: Seq<char>| next.contains(x) <==> (list.contains(x) || x == item) by {
            if list.contains(x) {
                let k = choose|k: int| 0 <= k < list.len() && list[k] == x;
                assert(next[k] == x);
            }
            if x == item {
                assert(next[list.len() as int] == x);
            }
        }
    } else if list[i] == item {
        assert(list.contains(item));
    } else if text::before(item, list[i]) {
        assert forall|a: int, b: int| 0 <= a < b < next.len() implies text::before(
            next[a],
            next[b],
        ) by {
            if a == i {
                if b > i + 1 {
                    text::before_is_transitive(item, list[i], list[b - 1]);
                }
            } else if b == i {
            } else {
                let c = if a < i {
                    a
                } else {
                    a - 1
                };
                let d = if b < i {
                    b
                } else {
                    b - 1
                };
                assert(text::before(list[c], list[d]));
            }
        }
        assert forall|x: Seq<char>| next.contains(x) <==> (list.contains(x) || x == item) by {
            if list.contains(x) {
                let k = choose|k: int| 0 <= k < list.len() && list[k] == x;
                if k < i {
                    assert(next[k] == x);
                } else {
                    assert(next[k + 1] == x);
                }
            }
            if x == item {
                assert(next[i] == x);
            }
            if next.contains(x) {
                let k = choose|k: int| 0 <= k < next.len() && next[k] == x;
                if k < i {
                    assert(list[k] == x);
                } else if k > i {
                    assert(list[k - 1] == x);
                }
            }
        }
    } else {
        text::before_is_total(list[i], item);
        inserted_keeps_order_from(list, item, i + 1);
    }
}

/// Putting a text at its place keeps the order, and the list then holds that text
/// and what it held before.
pub proof fn insertion_keeps_order(list: Seq<Seq<char>>, item: Seq<char>)
    requires
        increasing(list),
    ensures
        increasing(inserted(list, item)),
        forall|x: Seq<char>| #[trigger]
            inserted(list, item).contains(x) <==> (list.contains(x) || x == item),
{
    inserted_keeps_order_from(list, item, 0);
}

} // verus!
