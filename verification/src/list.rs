//! Lists by what their items say.

use vstd::prelude::*;

verus! {

/// Adds an item at the end.
pub fn push<T: DeepView>(list: &mut Vec<T>, item: T)
    ensures
        final(list)@ == old(list)@.push(item),
        final(list).deep_view() == old(list).deep_view().push(item.deep_view()),
{
    list.push(item);
    assert(list.deep_view() =~= old(list).deep_view().push(item.deep_view()));
}

/// What can be copied into a value that says the same.
pub trait Duplicate: DeepView + Sized {
    fn duplicate(&self) -> (r: Self)
        ensures
            r.deep_view() == self.deep_view(),
    ;
}

/// The first `n` items of a list, copied.
pub fn duplicate_first<T: Duplicate>(list: &Vec<T>, n: usize) -> (r: Vec<T>)
    requires
        n <= list@.len(),
    ensures
        r.deep_view() == list.deep_view().take(n as int),
{
    let ghost all = list.deep_view();
    let mut out: Vec<T> = Vec::new();
    let mut i: usize = 0;
    while i < n
        invariant
            i <= n <= list@.len(),
            all == list.deep_view(),
            out@.len() == i,
            forall|k: int| 0 <= k < i ==> (#[trigger] out@[k]).deep_view() == all[k],
        decreases n - i,
    {
        out.push(list[i].duplicate());
        i += 1;
    }
    assert(out.deep_view() =~= all.take(n as int));
    out
}

/// The items of a list, copied.
pub fn duplicate_all<T: Duplicate>(list: &Vec<T>) -> (r: Vec<T>)
    ensures
        r.deep_view() == list.deep_view(),
{
    let out = duplicate_first(list, list.len());
    assert(list.deep_view().take(list@.len() as int) =~= list.deep_view());
    out
}

/// Two lists hold the same bytes.
pub fn same_bytes(a: &[u8], b: &[u8]) -> (r: bool)
    ensures
        r == (a@ == b@),
{
    if a.len() != b.len() {
        return false;
    }
    let mut i: usize = 0;
    while i < a.len()
        invariant
            i <= a@.len(),
            a@.len() == b@.len(),
            forall|k: int| 0 <= k < i ==> a@[k] == b@[k],
        decreases a@.len() - i,
    {
        if a[i] != b[i] {
            return false;
        }
        i += 1;
    }
    assert(a@ =~= b@);
    true
}

} // verus!
