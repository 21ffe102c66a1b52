//! Path patterns: `*` within a segment, `**` for any number of segments.

use vstd::prelude::*;
use crate::text;

verus! {

broadcast use vstd::string::group_string_axioms;

/// The byte of an asterisk.
pub const STAR: u8 = 42;

/// A segment pattern matches a segment, both from a position on: `*` stands for
/// any bytes, and any other byte for itself.
pub open spec fn wild(p: Seq<u8>, t: Seq<u8>, i: int, j: int) -> bool
    decreases p.len() - i, t.len() - j,
{
    if i < 0 || j < 0 || i > p.len() || j > t.len() {
        false
    } else if i == p.len() {
        j == t.len()
    } else if p[i] == STAR {
        wild(p, t, i + 1, j) || (j < t.len() && wild(p, t, i, j + 1))
    } else {
        j < t.len() && p[i] == t[j] && wild(p, t, i + 1, j + 1)
    }
}

/// Only asterisks are left from `i` on.
pub open spec fn only_stars(p: Seq<u8>, i: int) -> bool
    decreases p.len() - i,
{
    if i < 0 || i >= p.len() {
        true
    } else {
        p[i] == STAR && only_stars(p, i + 1)
    }
}

/// The scan that decides whether a segment matches. It goes on at `i` in the
/// pattern and `j` in the segment. The last asterisk met stands at `star` and has
/// been taken to end at `mark` in the segment; a mismatch lets it end one byte
/// later. A byte of the segment that equals the pattern's is taken as itself, an
/// asterisk too.
pub open spec fn scan(
    p: Seq<u8>,
    t: Seq<u8>,
    i: int,
    j: int,
    star: Option<int>,
    mark: int,
) -> bool
    decreases
            (match star {
                Some(_) => t.len() - mark,
                None => t.len() + 1int,
            }),
            p.len() - i,
{
    if i < 0 || i > p.len() || j < 0 || j > t.len() || (star matches Some(s) && !(0 <= s < i
        && 0 <= mark <= j)) {
        false
    } else if j == t.len() {
        only_stars(p, i)
    } else if i < p.len() && p[i] == t[j] {
        scan(p, t, i + 1, j + 1, star, mark)
    } else if i < p.len() && p[i] == STAR {
        scan(p, t, i + 1, j, Some(i), j)
    } else {
        match star {
            Some(s) => scan(p, t, s + 1, mark + 1, star, mark + 1),
            None => false,
        }
    }
}

/// A segment pattern matches a segment.
pub open spec fn segment_match(p: Seq<u8>, t: Seq<u8>) -> bool {
    scan(p, t, 0, 0, None, 0)
}

/// A segment pattern matches a segment.
pub fn segment_matches(pattern: &str, segment: &str) -> (r: bool)
    ensures
        r == segment_match(
            vstd::utf8::encode_utf8(pattern@),
            vstd::utf8::encode_utf8(segment@),
        ),
{
    let p = pattern.as_bytes();
    let t = segment.as_bytes();
    let plen: usize = p.len();
    let tlen: usize = t.len();
    let mut i: usize = 0;
    let mut j: usize = 0;
    let mut star: Option<usize> = None;
    let mut mark: usize = 0;
    while j < tlen
        invariant
            plen == p@.len(),
            tlen == t@.len(),
            i <= plen,
            j <= tlen,
            star matches Some(s) ==> s < i && mark <= j,
            p@ == vstd::utf8::encode_utf8(pattern@),
            t@ == vstd::utf8::encode_utf8(segment@),
            segment_match(p@, t@) == scan(
                p@,
                t@,
                i as int,
                j as int,
                match star {
                    Some(s) => Some(s as int),
                    None => None,
                },
                mark as int,
            ),
        decreases
                (match star {
                    Some(_) => tlen - mark,
                    None => tlen + 1,
                }),
                plen - i,
    {
        if i < plen && p[i] == t[j] {
            i += 1;
            j += 1;
        } else if i < plen && p[i] == STAR {
            star = Some(i);
            mark = j;
            i += 1;
        } else {
            match star {
                Some(s) => {
                    i = s + 1;
                    mark += 1;
                    j = mark;
                },
                None => {
                    return false;
                },
            }
        }
    }
    while i < plen && p[i] == STAR
        invariant
            plen == p@.len(),
            i <= plen,
            segment_match(p@, t@) == only_stars(p@, i as int),
        decreases plen - i,
    {
        i += 1;
    }
    i == plen
}

/// No asterisk stands between two positions of a pattern.
pub open spec fn plain(p: Seq<u8>, a: int, b: int) -> bool {
    forall|k: int| a <= k < b ==> p[k] != STAR
}

proof fn plain_run(p: Seq<u8>, t: Seq<u8>, a: int, b: int, k: int)
    requires
        0 <= a <= b <= p.len(),
        plain(p, a, b),
        wild(p, t, a, k),
    ensures
        wild(p, t, b, k + (b - a)),
        k + (b - a) <= t.len(),
    decreases b - a,
{
    if a < b {
        plain_run(p, t, a + 1, b, k + 1);
    }
}

proof fn star_absorbs(p: Seq<u8>, t: Seq<u8>, i: int, j: int, k: int)
    requires
        0 <= i < p.len(),
        p[i] == STAR,
        0 <= j <= k <= t.len(),
        wild(p, t, i, k),
    ensures
        wild(p, t, i, j),
    decreases k - j,
{
    if j < k {
        star_absorbs(p, t, i, j + 1, k);
    }
}

/// Some end of the asterisk at `s` behind `mark` lets the rest match.
pub open spec fn later_end(p: Seq<u8>, t: Seq<u8>, s: int, mark: int) -> bool {
    exists|k: int| mark < k <= t.len() && #[trigger] wild(p, t, s + 1, k)
}

proof fn star_ends_somewhere(p: Seq<u8>, t: Seq<u8>, i: int, j: int)
    requires
        0 <= i < p.len(),
        p[i] == STAR,
        0 <= j <= t.len(),
    ensures
        wild(p, t, i, j) == (wild(p, t, i + 1, j) || later_end(p, t, i, j)),
    decreases t.len() - j,
{
    if j < t.len() {
        star_ends_somewhere(p, t, i, j + 1);
        if later_end(p, t, i, j) {
            let k = choose|k: int| j < k <= t.len() && #[trigger] wild(p, t, i + 1, k);
            if k > j + 1 {
                assert(later_end(p, t, i, j + 1));
            }
        }
    }
}

proof fn stars_match_nothing(p: Seq<u8>, t: Seq<u8>, i: int)
    requires
        0 <= i <= p.len(),
    ensures
        wild(p, t, i, t.len() as int) == only_stars(p, i),
    decreases p.len() - i,
{
    if i < p.len() {
        stars_match_nothing(p, t, i + 1);
    }
}

proof fn scan_is_wild(
    p: Seq<u8>,
    t: Seq<u8>,
    i: int,
    j: int,
    star: Option<int>,
    mark: int,
)
    requires
        0 <= i <= p.len(),
        0 <= j <= t.len(),
        forall|k: int| 0 <= k < t.len() ==> t[k] != STAR,
        star matches Some(s) ==> {
            &&& 0 <= s < i
            &&& p[s] == STAR
            &&& plain(p, s + 1, i)
            &&& 0 <= mark <= j
            &&& j - mark == i - (s + 1)
        },
    ensures
        scan(p, t, i, j, star, mark) == (wild(p, t, i, j) || (star matches Some(s) && later_end(
            p,
            t,
            s,
            mark,
        ))),
    decreases
            (match star {
                Some(_) => t.len() - mark,
                None => t.len() + 1int,
            }),
            p.len() - i,
{
    if j == t.len() {
        stars_match_nothing(p, t, i);
        if star matches Some(s) && later_end(p, t, s, mark) {
            let s = star->0;
            let k = choose|k: int| mark < k <= t.len() && #[trigger] wild(p, t, s + 1, k);
            plain_run(p, t, s + 1, i, k);
            assert(false);
        }
    } else if i < p.len() && p[i] == t[j] {
        scan_is_wild(p, t, i + 1, j + 1, star, mark);
    } else if i < p.len() && p[i] == STAR {
        scan_is_wild(p, t, i + 1, j, Some(i), j);
        star_ends_somewhere(p, t, i, j);
        if star matches Some(s) && later_end(p, t, s, mark) {
            let s = star->0;
            let k = choose|k: int| mark < k <= t.len() && #[trigger] wild(p, t, s + 1, k);
            plain_run(p, t, s + 1, i, k);
            star_absorbs(p, t, i, j, k + (i - (s + 1)));
        }
    } else {
        match star {
            Some(s) => {
                scan_is_wild(p, t, s + 1, mark + 1, star, mark + 1);
                if later_end(p, t, s, mark) {
                    let k = choose|k: int| mark < k <= t.len() && #[trigger] wild(p, t, s + 1, k);
                    if k > mark + 1 {
                        assert(later_end(p, t, s, mark + 1));
                    }
                }
            },
            None => {},
        }
    }
}

/// A segment pattern is a wildcard: on a segment without an asterisk of its own,
/// it matches where `*` can stand for some bytes and every other byte for itself.
pub proof fn segment_patterns_are_wildcards(p: Seq<u8>, t: Seq<u8>)
    requires
        forall|k: int| 0 <= k < t.len() ==> t[k] != STAR,
    ensures
        segment_match(p, t) == wild(p, t, 0, 0),
{
    scan_is_wild(p, t, 0, 0, None, 0);
}

/// A pattern matches a path, both from a part on: `**` stands for any number of
/// parts, and any other part for one that it matches as a segment.
pub open spec fn parts_match(pattern: Seq<Seq<char>>, path: Seq<Seq<char>>, i: int, j: int) -> bool
    decreases pattern.len() - i, path.len() - j,
{
    if i < 0 || j < 0 || i > pattern.len() || j > path.len() {
        false
    } else if i == pattern.len() {
        j == path.len()
    } else if pattern[i] == "**"@ {
        parts_match(pattern, path, i + 1, j) || (j < path.len() && parts_match(
            pattern,
            path,
            i,
            j + 1,
        ))
    } else {
        &&& j < path.len()
        &&& segment_match(
            vstd::utf8::encode_utf8(pattern[i]),
            vstd::utf8::encode_utf8(path[j]),
        )
        &&& parts_match(pattern, path, i + 1, j + 1)
    }
}

/// A pattern matches a path, with `/` between the parts of both.
pub open spec fn glob_match(pattern: Seq<char>, path: Seq<char>) -> bool {
    parts_match(text::pieces(pattern, '/'), text::pieces(path, '/'), 0, 0)
}

/// Some pattern from `i` on matches a path. A backslash in a pattern is a `/`.
pub open spec fn any_match_from(patterns: Seq<Seq<char>>, path: Seq<char>, i: int) -> bool
    decreases patterns.len() - i,
{
    if i < 0 || i >= patterns.len() {
        false
    } else {
        glob_match(text::slashed(patterns[i]), path) || any_match_from(patterns, path, i + 1)
    }
}

/// Some pattern matches a path.
pub open spec fn any_match(patterns: Seq<Seq<char>>, path: Seq<char>) -> bool {
    any_match_from(patterns, path, 0)
}

fn matches_parts(pattern: &Vec<&[char]>, path: &Vec<&[char]>, i: usize, j: usize) -> (r: bool)
    requires
        i <= pattern@.len(),
        j <= path@.len(),
    ensures
        r == parts_match(text::views(pattern@), text::views(path@), i as int, j as int),
    decreases pattern@.len() - i,
{
    let ghost all = text::views(pattern@);
    let ghost parts = text::views(path@);
    let total: usize = pattern.len();
    if i == total {
        return j == path.len();
    }
    assert(all[i as int] == pattern@[i as int]@);
    if text::is(pattern[i], "**") {
        let mut k: usize = j;
        let count: usize = path.len();
        loop
            invariant
                i < total,
                total == pattern@.len(),
                count == path@.len(),
                j <= k <= count,
                all == text::views(pattern@),
                parts == text::views(path@),
                all[i as int] == "**"@,
                parts_match(all, parts, i as int, j as int) == parts_match(
                    all,
                    parts,
                    i as int,
                    k as int,
                ),
            decreases count - k,
        {
            if matches_parts(pattern, path, i + 1, k) {
                return true;
            }
            if k == count {
                return false;
            }
            k += 1;
        }
    }
    if j == path.len() {
        return false;
    }
    assert(parts[j as int] == path@[j as int]@);
    let part = text::to_text(pattern[i]);
    let segment = text::to_text(path[j]);
    segment_matches(part.as_str(), segment.as_str()) && matches_parts(pattern, path, i + 1, j + 1)
}

/// A pattern matches a path.
pub fn glob_matches(pattern: &[char], path: &[char]) -> (r: bool)
    ensures
        r == glob_match(pattern@, path@),
{
    let pattern = text::split(pattern, '/');
    let path = text::split(path, '/');
    matches_parts(&pattern, &path, 0, 0)
}

/// Some pattern matches a path.
pub fn matches_any(patterns: &Vec<String>, path: &str) -> (r: bool)
    ensures
        r == any_match(patterns.deep_view(), path@),
{
    let ghost all = patterns.deep_view();
    let path_chars = text::to_chars(path);
    let mut i: usize = 0;
    while i < patterns.len()
        invariant
            i <= patterns@.len(),
            all == patterns.deep_view(),
            path_chars@ == path@,
            any_match(all, path@) == any_match_from(all, path@, i as int),
        decreases patterns@.len() - i,
    {
        assert(all[i as int] == patterns@[i as int]@);
        let pattern = text::to_slashes(text::to_chars(patterns[i].as_str()).as_slice());
        if glob_matches(pattern.as_slice(), path_chars.as_slice()) {
            return true;
        }
        i += 1;
    }
    false
}

} // verus!
