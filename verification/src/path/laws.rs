//! What the functions on paths promise of plain paths.

use vstd::prelude::*;
use crate::path::{
    absolute, after_from, alike, below, content_end, descends, joined, part_end, part_from,
    platform, within, Platform,
};
use crate::text;

verus! {

broadcast use vstd::string::group_string_axioms;

/// A name that a part of a path can have, other than the two names of directories that are
/// dots.
pub open spec fn plain_name(name: Seq<char>) -> bool {
    name.len() > 0 && !name.contains('/') && name != seq!['.'] && name != seq!['.', '.']
}

/// The absolute path of names, one below the other.
pub open spec fn path_of(names: Seq<Seq<char>>) -> Seq<char>
    decreases names.len(),
{
    if names.len() == 0 {
        seq![]
    } else {
        path_of(names.drop_last()) + seq!['/'] + names.last()
    }
}

proof fn paths_in_two(names: Seq<Seq<char>>, k: int)
    requires
        0 <= k < names.len(),
    ensures
        ({
            let front = path_of(names.take(k));
            let rest = text::joined(names.skip(k), seq!['/']);
            &&& path_of(names) == front + seq!['/'] + rest
            &&& path_of(names.take(k + 1)) == front + seq!['/'] + names[k]
        }),
    decreases names.len() - k,
{
    assert(names.take(k + 1).drop_last() =~= names.take(k));
    if k == names.len() - 1 {
        assert(names.take(k) =~= names.drop_last());
        assert(names.skip(k) =~= seq![names.last()]);
        text::laws::joined_behind(seq![], names.last(), seq!['/']);
    } else {
        paths_in_two(names, k + 1);
        let later = names.skip(k + 1);
        assert(names.skip(k) =~= seq![names[k]] + later);
        text::laws::joined_in_front(names[k], later, seq!['/']);
        assert(path_of(names) =~= path_of(names.take(k)) + seq!['/'] + text::joined(
            names.skip(k),
            seq!['/'],
        ));
    }
}

proof fn ends_are_found(path: Seq<char>, i: int, n: int)
    requires
        0 <= i <= n <= path.len(),
        n < path.len() ==> path[n] == '/',
        forall|k: int| i <= k < n ==> #[trigger] path[k] != '/',
    ensures
        part_end(path, Platform::Posix, i) == n,
    decreases n - i,
{
    if i < n {
        ends_are_found(path, i + 1, n);
    }
}

/// The `k`-th part of a plain path stands where the parts before it end.
proof fn parts_stand_there(names: Seq<Seq<char>>, k: int)
    requires
        0 <= k < names.len(),
        forall|n: int| 0 <= n < names.len() ==> plain_name(#[trigger] names[n]),
    ensures
        ({
            let path = path_of(names);
            let at = path_of(names.take(k)).len() as int;
            let end = path_of(names.take(k + 1)).len() as int;
            &&& end == at + 1 + names[k].len()
            &&& end <= path.len()
            &&& part_from(path, Platform::Posix, at) == at + 1
            &&& part_from(path, Platform::Posix, at + 1) == at + 1
            &&& part_end(path, Platform::Posix, at + 1) == end
            &&& path.subrange(at + 1, end) == names[k]
        }),
{
    let path = path_of(names);
    let front = path_of(names.take(k));
    let at = front.len() as int;
    let name = names[k];
    let end = at + 1 + name.len();
    paths_in_two(names, k);
    let rest = text::joined(names.skip(k), seq!['/']);
    let later = names.skip(k + 1);
    assert(names.skip(k) =~= seq![name] + later);
    text::laws::joined_in_front(name, later, seq!['/']);
    assert(plain_name(name));
    assert(path[at] == '/');
    assert(path.subrange(at + 1, end) =~= name);
    assert forall|n: int| at + 1 <= n < end implies #[trigger] path[n] != '/' by {
        assert(path[n] == name[n - at - 1]);
        assert(name.contains(name[n - at - 1]));
    }
    assert(end < path.len() ==> path[end] == '/');
    assert(path[at + 1] == name[0]);
    if path[at + 1] == '.' && (at + 2 == path.len() || path[at + 2] == '/') {
        if name.len() > 1 {
            assert(path[at + 2] == name[1]);
            assert(name.contains(name[1]));
        }
        assert(name =~= seq!['.']);
    }
    ends_are_found(path, at + 1, end);
    reveal_with_fuel(part_from, 3);
}

proof fn nothing_stands_behind(names: Seq<Seq<char>>)
    ensures
        part_from(path_of(names), Platform::Posix, path_of(names).len() as int) == path_of(
            names,
        ).len(),
{
}

proof fn parts_are_compared_from(a: Seq<Seq<char>>, b: Seq<Seq<char>>, k: int)
    requires
        0 <= k <= a.len(),
        k <= b.len(),
        a.take(k) == b.take(k),
        forall|n: int| 0 <= n < a.len() ==> plain_name(#[trigger] a[n]),
        forall|n: int| 0 <= n < b.len() ==> plain_name(#[trigger] b[n]),
    ensures
        after_from(
            path_of(a),
            path_of(a.take(k)).len() as int,
            path_of(b),
            path_of(b.take(k)).len() as int,
            Platform::Posix,
        ) == if b.len() <= a.len() && a.take(b.len() as int) == b {
            Some(
                if b.len() == a.len() {
                    path_of(a).len() as int
                } else {
                    path_of(b).len() + 1int
                },
            )
        } else {
            None
        },
    decreases b.len() - k,
{
    let x = path_of(a);
    let y = path_of(b);
    let i = path_of(a.take(k)).len() as int;
    let j = path_of(b.take(k)).len() as int;
    if k < b.len() {
        parts_stand_there(b, k);
        if k < a.len() {
            parts_stand_there(a, k);
            if a[k] == b[k] {
                assert(a.take(k + 1) =~= a.take(k).push(a[k]));
                assert(b.take(k + 1) =~= b.take(k).push(b[k]));
                parts_are_compared_from(a, b, k + 1);
            } else if b.len() <= a.len() && a.take(b.len() as int) == b {
                assert(a.take(b.len() as int)[k] == a[k]);
            }
        } else {
            assert(a.take(k) =~= a);
            nothing_stands_behind(a);
        }
    } else {
        assert(b.take(k) =~= b);
        nothing_stands_behind(b);
        if k < a.len() {
            parts_stand_there(a, k);
        } else {
            assert(a.take(k) =~= a);
            nothing_stands_behind(a);
        }
    }
}

/// One plain path lies below another exactly where the names of the other are the first of its
/// own; what is below are then the names that follow. A path beside another that only begins
/// with the same letters is not below it.
pub proof fn paths_lie_below_by_their_names(a: Seq<Seq<char>>, b: Seq<Seq<char>>)
    requires
        a.len() > 0,
        b.len() > 0,
        forall|n: int| 0 <= n < a.len() ==> plain_name(#[trigger] a[n]),
        forall|n: int| 0 <= n < b.len() ==> plain_name(#[trigger] b[n]),
    ensures
        within(path_of(a), path_of(b)) <==> b.len() <= a.len() && a.take(b.len() as int) == b,
        alike(path_of(a), path_of(b)) <==> a == b,
        b.len() <= a.len() && a.take(b.len() as int) == b ==> below(path_of(a), path_of(b)) == Some(
            text::joined(a.skip(b.len() as int), seq!['/']),
        ),
{
    let x = path_of(a);
    let y = path_of(b);
    let n = b.len() as int;
    assert(a.take(0) =~= seq![]);
    assert(b.take(0) =~= seq![]);
    parts_stand_there(a, 0);
    parts_stand_there(b, 0);
    paths_in_two(a, 0);
    paths_in_two(b, 0);
    assert(x[0] == '/' && y[0] == '/');
    parts_are_compared_from(a, b, 0);
    assert(platform(y) == Platform::Posix);
    let start = after_from(x, 0, y, 0, Platform::Posix);
    assert(after_from(x, 1, y, 1, Platform::Posix) == start);
    if n <= a.len() && a.take(n) == b {
        let rest = a.skip(n);
        if n < a.len() {
            paths_in_two(a, n);
            let inner = text::joined(rest, seq!['/']);
            let at = path_of(b).len() + 1int;
            last_part_is_whole(a);
            assert(x.subrange(at, x.len() as int) =~= inner);
            text::laws::joined_is_some(rest, seq!['/']);
            assert(rest[0] == a[n]);
            assert(plain_name(a[n]));
            assert(at < x.len());
            assert(below(x, y) == Some(inner));
            assert(inner != Seq::<char>::empty());
            assert(a != b);
        } else {
            assert(rest =~= seq![]);
            text::laws::joined_behind(seq![], seq![], seq!['/']);
            assert(a.take(n) =~= a);
            assert(x.subrange(x.len() as int, x.len() as int) =~= seq![]);
            assert(below(x, y) == Some(Seq::<char>::empty()));
        }
    }
    if a == b {
        assert(a.take(n) =~= b);
    }
}

proof fn last_part_is_whole(a: Seq<Seq<char>>)
    requires
        a.len() > 0,
        forall|n: int| 0 <= n < a.len() ==> plain_name(#[trigger] a[n]),
    ensures
        forall|start: int|
            0 <= start < path_of(a).len() ==> #[trigger] content_end(
                path_of(a),
                Platform::Posix,
                start,
                path_of(a).len() as int,
            ) == path_of(a).len(),
{
    let x = path_of(a);
    let name = a.last();
    assert(plain_name(a[a.len() - 1]));
    let m = x.len() as int;
    assert(x[m - 1] == name[name.len() - 1]);
    assert(name.contains(name[name.len() - 1]));
    if x[m - 1] == '.' && x[m - 2] == '/' {
        if name.len() > 1 {
            assert(x[m - 2] == name[name.len() - 2]);
            assert(name.contains(name[name.len() - 2]));
        }
        assert(name =~= seq!['.']);
    }
}

/// A plain name joined to an absolute path is below it by that name, and leads down.
pub proof fn joined_names_lie_below(names: Seq<Seq<char>>, name: Seq<char>)
    requires
        names.len() > 0,
        forall|n: int| 0 <= n < names.len() ==> plain_name(#[trigger] names[n]),
        plain_name(name),
    ensures
        joined(path_of(names), name) == path_of(names.push(name)),
        below(joined(path_of(names), name), path_of(names)) == Some(name),
        descends(name, Platform::Posix),
        !absolute(name, Platform::Posix),
        absolute(path_of(names), Platform::Posix),
{
    let root = path_of(names);
    let all = names.push(name);
    assert(names.take(0) =~= seq![]);
    paths_in_two(names, 0);
    assert(root[0] == '/');
    let last = names.last();
    assert(plain_name(names[names.len() - 1]));
    assert(root.last() == last[last.len() - 1]);
    assert(last.contains(last[last.len() - 1]));
    assert(name.contains(name[0]));
    assert(all.drop_last() =~= names);
    assert(path_of(all) =~= root.push('/') + name);
    assert forall|n: int| 0 <= n < all.len() implies plain_name(#[trigger] all[n]) by {
        if n < names.len() {
            assert(all[n] == names[n]);
        }
    }
    paths_lie_below_by_their_names(all, names);
    assert(all.take(names.len() as int) =~= names);
    assert(all.skip(names.len() as int) =~= seq![name]);
    text::laws::joined_behind(seq![], name, seq!['/']);
    reveal_strlit("/");
    reveal_strlit("..");
    if text::begins(name, "/"@) {
        assert(name.subrange(0, 1)[0] == name[0]);
    }
    text::laws::pieces_of_two(name, name, '/');
    assert(".."@ =~= seq!['.', '.']);
    assert(!seq![name].contains(".."@)) by {
        if seq![name].contains(".."@) {
            assert(seq![name][0] == ".."@);
        }
    }
}

/// A path does not lead down where one of its parts leads up, or where it is absolute.
pub proof fn paths_that_lead_up_do_not_descend(front: Seq<char>, back: Seq<char>)
    ensures
        !descends(front + "/../"@ + back, Platform::Posix),
        !descends("../"@ + back, Platform::Posix),
        !descends("/"@ + back, Platform::Posix),
{
    reveal_strlit("/../");
    reveal_strlit("../");
    reveal_strlit("/");
    reveal_strlit("..");
    let up = seq!['.', '.'];
    assert(".."@ =~= up);
    assert(!up.contains('/'));
    let s = front + "/../"@ + back;
    assert(s =~= front + seq!['/'] + (up + seq!['/'] + back));
    text::laws::pieces_of_two(front, up + seq!['/'] + back, '/');
    text::laws::pieces_of_two(up, back, '/');
    let parts = text::pieces(s, '/');
    let n = text::pieces(front, '/').len() as int;
    assert(parts[n] == up);
    assert(parts.contains(".."@));
    let t = "../"@ + back;
    assert(t =~= up + seq!['/'] + back);
    assert(text::pieces(t, '/')[0] == up);
    assert(text::pieces(t, '/').contains(".."@));
    let r = "/"@ + back;
    assert(r.subrange(0, 1) =~= "/"@);
}

} // verus!
