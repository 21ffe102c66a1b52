//! File paths as text.

pub mod laws;

use vstd::prelude::*;
use crate::text;

verus! {

broadcast use vstd::string::group_string_axioms;

/// The system whose rules the text of a path follows.
#[derive(Clone, Copy, Debug, PartialEq, Eq, Structural)]
pub enum Platform {
    Posix,
    Windows,
}

/// A character that parts a path.
pub open spec fn separates(c: char, platform: Platform) -> bool {
    c == '/' || (platform == Platform::Windows && c == '\\')
}

/// The character that a path is extended with.
pub open spec fn separator(platform: Platform) -> char {
    match platform {
        Platform::Posix => '/',
        Platform::Windows => '\\',
    }
}

/// A path with `/` between its parts.
pub open spec fn portable(path: Seq<char>, platform: Platform) -> Seq<char> {
    match platform {
        Platform::Posix => path,
        Platform::Windows => text::slashed(path),
    }
}

/// A path on Windows that begins with the letter of a drive.
pub open spec fn has_drive(path: Seq<char>) -> bool {
    path.len() >= 2 && text::ascii_letter(path[0]) && path[1] == ':'
}

/// A path on Windows that begins with a server and a share, or with a device.
pub open spec fn has_share(path: Seq<char>) -> bool {
    let parts = text::pieces(text::slashed(path), '/');
    parts.len() >= 4 && parts[0].len() == 0 && parts[1].len() == 0 && parts[2].len() > 0
        && parts[3].len() > 0
}

/// A path that means the same from every directory.
pub open spec fn absolute(path: Seq<char>, platform: Platform) -> bool {
    match platform {
        Platform::Posix => path.len() > 0 && path[0] == '/',
        Platform::Windows => has_share(path) || (has_drive(path) && path.len() >= 3 && separates(
            path[2],
            Platform::Windows,
        )),
    }
}

/// The system that a directory belongs to. An absolute path shows it; a relative one is taken
/// to have `/` between its parts.
pub open spec fn platform(root: Seq<char>) -> Platform {
    if !absolute(root, Platform::Posix) && absolute(root, Platform::Windows) {
        Platform::Windows
    } else {
        Platform::Posix
    }
}

/// A path that leads nowhere but down from where it starts: it names no root and no drive,
/// and no part of it leads upwards.
pub open spec fn descends(path: Seq<char>, platform: Platform) -> bool {
    &&& !text::begins(portable(path, platform), "/"@)
    &&& !text::pieces(portable(path, platform), '/').contains(".."@)
    &&& platform == Platform::Windows ==> !has_drive(path)
}

/// Where the `n`-th of the separators of a path on Windows stands, counted from `i`; the end
/// of the path where it has fewer.
pub open spec fn separator_from(path: Seq<char>, n: int, i: int) -> int
    decreases path.len() - i,
{
    if i < 0 || i >= path.len() {
        path.len() as int
    } else if !separates(path[i], Platform::Windows) {
        separator_from(path, n, i + 1)
    } else if n <= 1 {
        i
    } else {
        separator_from(path, n - 1, i + 1)
    }
}

/// How long the drive, the share or the device is that an absolute path on Windows begins with.
pub open spec fn prefix_len(path: Seq<char>) -> int {
    if has_drive(path) {
        2
    } else if text::begins(path, "\\\\?\\UNC\\"@) {
        separator_from(path, 6, 0)
    } else {
        separator_from(path, 4, 0)
    }
}

/// A path on Windows that is taken as it is written, with no meaning in its dots.
pub open spec fn verbatim(path: Seq<char>) -> bool {
    text::begins(path, "\\\\?\\"@)
}

/// A path on Windows with a separator behind it.
pub open spec fn with_backslash(path: Seq<char>) -> Seq<char> {
    if path.len() == 0 || separates(path.last(), Platform::Windows) {
        path
    } else {
        path.push('\\')
    }
}

/// How much of a path on Windows is left without its last part; the root stays.
pub open spec fn parent_len(path: Seq<char>, i: int) -> int
    decreases i,
{
    if i <= 0 || i > path.len() {
        path.len() as int
    } else if !separates(path[i - 1], Platform::Windows) {
        parent_len(path, i - 1)
    } else if i == path.len() || i - 1 < prefix_len(path) {
        path.len() as int
    } else if i - 1 == prefix_len(path) {
        i
    } else {
        i - 1
    }
}

/// A path on Windows, extended by the parts from `i` on; parts that are dots are followed.
pub open spec fn followed_from(path: Seq<char>, parts: Seq<Seq<char>>, i: int) -> Seq<char>
    decreases parts.len() - i,
{
    if i < 0 || i >= parts.len() {
        path
    } else if parts[i].len() == 0 || parts[i] == "."@ {
        followed_from(path, parts, i + 1)
    } else if parts[i] == ".."@ {
        followed_from(path.take(parent_len(path, path.len() as int)), parts, i + 1)
    } else {
        followed_from(with_backslash(path) + parts[i], parts, i + 1)
    }
}

/// A path below a directory on Windows, or the path itself where it names a drive or a share.
/// A path that begins with a separator is meant on the drive or the share of the directory.
pub open spec fn joined_on_windows(root: Seq<char>, part: Seq<char>) -> Seq<char> {
    if has_drive(part) || has_share(part) {
        part
    } else if part.len() > 0 && separates(part[0], Platform::Windows) {
        let start = root.take(prefix_len(root));
        if verbatim(root) {
            followed_from(start.push('\\'), text::pieces(text::slashed(part), '/'), 0)
        } else {
            start + part
        }
    } else if part.len() > 0 && verbatim(root) {
        followed_from(root, text::pieces(text::slashed(part), '/'), 0)
    } else {
        with_backslash(root) + part
    }
}

/// A path below another, or the path itself where it is absolute.
pub open spec fn joined(root: Seq<char>, part: Seq<char>) -> Seq<char> {
    if platform(root) == Platform::Windows {
        joined_on_windows(root, part)
    } else if part.len() > 0 && part[0] == '/' {
        part
    } else if root.len() == 0 || root.last() == '/' {
        root + part
    } else {
        root.push('/') + part
    }
}

fn copied(path: &[char]) -> (r: Vec<char>)
    ensures
        r@ == path@,
{
    let mut out: Vec<char> = Vec::new();
    text::append(&mut out, path);
    assert(out@ =~= path@);
    out
}

fn is_separator(c: char, platform: Platform) -> (r: bool)
    ensures
        r == separates(c, platform),
{
    match platform {
        Platform::Posix => c == '/',
        Platform::Windows => c == '/' || c == '\\',
    }
}

/// A path with `/` between its parts.
pub fn to_portable(path: &[char], platform: Platform) -> (r: Vec<char>)
    ensures
        r@ == portable(path@, platform),
{
    match platform {
        Platform::Posix => copied(path),
        Platform::Windows => text::to_slashes(path),
    }
}

fn names_drive(path: &[char]) -> (r: bool)
    ensures
        r == has_drive(path@),
{
    path.len() >= 2 && text::is_letter(path[0]) && path[1] == ':'
}

fn names_share(path: &[char]) -> (r: bool)
    ensures
        r == has_share(path@),
{
    let shown = text::to_slashes(path);
    let parts = text::split(shown.as_slice(), '/');
    let ghost all = text::views(parts@);
    if parts.len() < 4 {
        return false;
    }
    assert(all[0] == parts@[0]@ && all[1] == parts@[1]@ && all[2] == parts@[2]@ && all[3]
        == parts@[3]@);
    parts[0].len() == 0 && parts[1].len() == 0 && parts[2].len() > 0 && parts[3].len() > 0
}

fn is_absolute_text(path: &[char], platform: Platform) -> (r: bool)
    ensures
        r == absolute(path@, platform),
{
    match platform {
        Platform::Posix => path.len() > 0 && path[0] == '/',
        Platform::Windows => names_share(path) || (names_drive(path) && path.len() >= 3
            && is_separator(path[2], Platform::Windows)),
    }
}

/// A path that means the same from every directory.
pub fn is_absolute(path: &str, platform: Platform) -> (r: bool)
    ensures
        r == absolute(path@, platform),
{
    is_absolute_text(text::to_chars(path).as_slice(), platform)
}

fn platform_of_text(root: &[char]) -> (r: Platform)
    ensures
        r == platform(root@),
{
    if !is_absolute_text(root, Platform::Posix) && is_absolute_text(root, Platform::Windows) {
        Platform::Windows
    } else {
        Platform::Posix
    }
}

/// The system that a directory belongs to.
pub fn platform_of(root: &str) -> (r: Platform)
    ensures
        r == platform(root@),
{
    platform_of_text(text::to_chars(root).as_slice())
}

/// A path leads nowhere but down from where it starts.
pub fn is_descending(path: &str, platform: Platform) -> (r: bool)
    ensures
        r == descends(path@, platform),
{
    let chars = text::to_chars(path);
    let shown = to_portable(chars.as_slice(), platform);
    if text::starts_with(shown.as_slice(), "/") {
        return false;
    }
    if platform == Platform::Windows && names_drive(chars.as_slice()) {
        return false;
    }
    let parts = text::split(shown.as_slice(), '/');
    let ghost all = text::views(parts@);
    let mut i: usize = 0;
    while i < parts.len()
        invariant
            i <= parts@.len(),
            all == text::views(parts@),
            all == text::pieces(portable(path@, platform), '/'),
            forall|k: int| 0 <= k < i ==> all[k] != ".."@,
        decreases parts@.len() - i,
    {
        assert(all[i as int] == parts@[i as int]@);
        if text::is(parts[i], "..") {
            assert(all.contains(".."@));
            return false;
        }
        i += 1;
    }
    true
}

fn find_separator(path: &[char], n: usize) -> (r: usize)
    requires
        n >= 1,
    ensures
        r == separator_from(path@, n as int, 0),
        r <= path@.len(),
{
    let mut left: usize = n;
    let mut i: usize = 0;
    while i < path.len()
        invariant
            i <= path@.len(),
            1 <= left <= n,
            separator_from(path@, n as int, 0) == separator_from(path@, left as int, i as int),
        decreases path@.len() - i,
    {
        if is_separator(path[i], Platform::Windows) {
            if left == 1 {
                return i;
            }
            left -= 1;
        }
        i += 1;
    }
    i
}

fn find_prefix(path: &[char]) -> (r: usize)
    ensures
        r == prefix_len(path@),
        r <= path@.len(),
{
    if names_drive(path) {
        2
    } else if text::starts_with(path, "\\\\?\\UNC\\") {
        find_separator(path, 6)
    } else {
        find_separator(path, 4)
    }
}

fn add_backslash(path: &mut Vec<char>)
    ensures
        final(path)@ == with_backslash(old(path)@),
{
    if path.len() > 0 && !is_separator(path[path.len() - 1], Platform::Windows) {
        path.push('\\');
    }
}

fn find_parent(path: &[char]) -> (r: usize)
    ensures
        r == parent_len(path@, path@.len() as int),
        r <= path@.len(),
{
    let prefix = find_prefix(path);
    let mut i: usize = path.len();
    while i > 0
        invariant
            i <= path@.len(),
            prefix == prefix_len(path@),
            parent_len(path@, path@.len() as int) == parent_len(path@, i as int),
        decreases i,
    {
        if is_separator(path[i - 1], Platform::Windows) {
            if i == path.len() || i - 1 < prefix {
                return path.len();
            }
            if i - 1 == prefix {
                return i;
            }
            return i - 1;
        }
        i -= 1;
    }
    path.len()
}

fn follow(path: Vec<char>, part: &[char]) -> (r: Vec<char>)
    ensures
        r@ == followed_from(path@, text::pieces(text::slashed(part@), '/'), 0),
{
    let ghost start = path@;
    let shown = text::to_slashes(part);
    let parts = text::split(shown.as_slice(), '/');
    let ghost all = text::views(parts@);
    let mut path = path;
    let mut i: usize = 0;
    while i < parts.len()
        invariant
            i <= parts@.len(),
            all == text::views(parts@),
            followed_from(start, all, 0) == followed_from(path@, all, i as int),
        decreases parts@.len() - i,
    {
        assert(all[i as int] == parts@[i as int]@);
        if parts[i].len() == 0 || text::is(parts[i], ".") {
        } else if text::is(parts[i], "..") {
            let end = find_parent(path.as_slice());
            path.truncate(end);
        } else {
            add_backslash(&mut path);
            text::append(&mut path, parts[i]);
        }
        i += 1;
    }
    path
}

fn join_on_windows(root: &[char], part: &[char]) -> (r: Vec<char>)
    ensures
        r@ == joined_on_windows(root@, part@),
{
    if names_drive(part) || names_share(part) {
        return copied(part);
    }
    let mut out = copied(root);
    if part.len() > 0 && is_separator(part[0], Platform::Windows) {
        out.truncate(find_prefix(root));
        assert(out@ =~= root@.take(prefix_len(root@)));
        if text::starts_with(root, "\\\\?\\") {
            out.push('\\');
            return follow(out, part);
        }
    } else if part.len() > 0 && text::starts_with(root, "\\\\?\\") {
        return follow(out, part);
    } else {
        add_backslash(&mut out);
    }
    text::append(&mut out, part);
    out
}

/// A path below another, or the path itself where it is absolute.
pub fn join(root: &str, part: &str) -> (r: String)
    ensures
        r@ == joined(root@, part@),
{
    let mut out = text::to_chars(root);
    let part = text::to_chars(part);
    if platform_of_text(out.as_slice()) == Platform::Windows {
        let whole = join_on_windows(out.as_slice(), part.as_slice());
        return text::to_text(whole.as_slice());
    }
    if part.len() > 0 && part[0] == '/' {
        return text::to_text(part.as_slice());
    }
    if out.len() > 0 && out[out.len() - 1] != '/' {
        out.push('/');
    }
    text::append(&mut out, part.as_slice());
    text::to_text(out.as_slice())
}

/// A directory with a separator behind it; every path lies below the empty one.
pub open spec fn with_separator(root: Seq<char>) -> Seq<char> {
    if root.len() == 0 || separates(root.last(), platform(root)) {
        root
    } else {
        root.push(separator(platform(root)))
    }
}

/// The first place from `i` on at which a part of a path begins that counts: empty parts and
/// single dots do not. `i` is where some part begins, or a separator.
pub open spec fn part_from(path: Seq<char>, platform: Platform, i: int) -> int
    decreases path.len() - i,
{
    if i < 0 || i >= path.len() {
        path.len() as int
    } else if separates(path[i], platform) || (path[i] == '.' && (i + 1 == path.len() || separates(
        path[i + 1],
        platform,
    ))) {
        part_from(path, platform, i + 1)
    } else {
        i
    }
}

/// Where the part of a path ends that stands at `i`.
pub open spec fn part_end(path: Seq<char>, platform: Platform, i: int) -> int
    decreases path.len() - i,
{
    if i < 0 || i >= path.len() {
        path.len() as int
    } else if separates(path[i], platform) {
        i
    } else {
        part_end(path, platform, i + 1)
    }
}

/// Where a path ends, read back from `end` to `start`, without the separators and the single
/// dots behind its last part.
pub open spec fn content_end(path: Seq<char>, platform: Platform, start: int, end: int) -> int
    decreases end - start,
{
    if end <= start || end > path.len() {
        start
    } else if separates(path[end - 1], platform) || (path[end - 1] == '.' && end >= 2 && separates(
        path[end - 2],
        platform,
    )) {
        content_end(path, platform, start, end - 1)
    } else {
        end
    }
}

/// A path whose first part is a single dot, which counts there.
pub open spec fn starts_here(path: Seq<char>, platform: Platform) -> bool {
    path.len() > 0 && path[0] == '.' && (path.len() == 1 || separates(path[1], platform))
}

/// How much stands before the parts of a path: a root, a drive, a share or a first dot.
pub open spec fn start_len(path: Seq<char>, platform: Platform) -> int {
    match platform {
        Platform::Posix => if absolute(path, platform) || starts_here(path, platform) {
            1
        } else {
            0
        },
        Platform::Windows => prefix_len(path),
    }
}

/// A path starts where a directory of the same system does. Drives are the same in capital and
/// small letters.
pub open spec fn same_start(path: Seq<char>, root: Seq<char>) -> bool {
    let platform = platform(root);
    let start = start_len(root, platform);
    match platform {
        Platform::Posix => absolute(path, platform) == absolute(root, platform) && starts_here(
            path,
            platform,
        ) == starts_here(root, platform),
        Platform::Windows => {
            &&& start <= path.len()
            &&& start < path.len() ==> separates(path[start], platform) || separates(
                path[start - 1],
                platform,
            )
            &&& if has_drive(root) {
                start < path.len() && text::lowered(path.take(start)) == text::lowered(
                    root.take(start),
                )
            } else {
                text::slashed(path.take(start)) == text::slashed(root.take(start))
            }
        },
    }
}

/// Where the part of a path begins that follows the parts of a directory, for the parts of the
/// path from `i` on and those of the directory from `j` on.
pub open spec fn after_from(
    path: Seq<char>,
    i: int,
    root: Seq<char>,
    j: int,
    platform: Platform,
) -> Option<int>
    decreases root.len() - j,
{
    let a = part_from(path, platform, i);
    let b = part_from(root, platform, j);
    if j < 0 || b >= root.len() {
        Some(a)
    } else if a >= path.len() || path.subrange(a, part_end(path, platform, a)) != root.subrange(
        b,
        part_end(root, platform, b),
    ) {
        None
    } else {
        proof {
            parts_are_within(root, platform, j);
            parts_are_within(root, platform, b);
        }
        after_from(
            path,
            part_end(path, platform, a),
            root,
            part_end(root, platform, b),
            platform,
        )
    }
}

/// Where the part of a path begins that follows the parts of a directory, where the path has
/// them all.
pub open spec fn after(path: Seq<char>, root: Seq<char>) -> Option<int> {
    let start = start_len(root, platform(root));
    if same_start(path, root) {
        after_from(path, start, root, start, platform(root))
    } else {
        None
    }
}

/// The path below a directory, compared part by part; below the empty directory lies every
/// path.
pub open spec fn below(path: Seq<char>, root: Seq<char>) -> Option<Seq<char>> {
    if root.len() == 0 {
        let start = start_len(path, Platform::Posix);
        Some(path.take(content_end(path, Platform::Posix, start, path.len() as int)))
    } else {
        match after(path, root) {
            Some(start) => Some(
                path.subrange(
                    start,
                    content_end(path, platform(root), start, path.len() as int),
                ),
            ),
            None => None,
        }
    }
}

/// A path is a directory or lies below it.
pub open spec fn within(path: Seq<char>, root: Seq<char>) -> bool {
    below(path, root) is Some
}

/// Two paths have the same parts.
pub open spec fn alike(path: Seq<char>, root: Seq<char>) -> bool {
    below(path, root) == Some(Seq::<char>::empty())
}

/// The parts of a path stand in it, and none that counts is empty.
pub proof fn parts_are_within(path: Seq<char>, platform: Platform, i: int)
    requires
        0 <= i <= path.len(),
    ensures
        i <= part_from(path, platform, i) <= path.len(),
        i <= part_end(path, platform, i) <= path.len(),
        i < path.len() && !separates(path[i], platform) ==> i < part_end(path, platform, i),
        ({
            let a = part_from(path, platform, i);
            a < path.len() ==> !separates(path[a], platform)
        }),
    decreases path.len() - i,
{
    if i < path.len() {
        parts_are_within(path, platform, i + 1);
    }
}

proof fn content_is_within(path: Seq<char>, platform: Platform, start: int, end: int)
    requires
        0 <= start <= end <= path.len(),
    ensures
        start <= content_end(path, platform, start, end) <= end,
    decreases end - start,
{
    if start < end {
        content_is_within(path, platform, start, end - 1);
    }
}

fn find_part(path: &[char], platform: Platform, from: usize) -> (r: usize)
    requires
        from <= path@.len(),
    ensures
        r == part_from(path@, platform, from as int),
        from <= r <= path@.len(),
        r < path@.len() ==> !separates(path@[r as int], platform),
{
    let mut i: usize = from;
    while i < path.len()
        invariant
            from <= i <= path@.len(),
            part_from(path@, platform, from as int) == part_from(path@, platform, i as int),
        decreases path@.len() - i,
    {
        if !(is_separator(path[i], platform) || (path[i] == '.' && (i + 1 == path.len()
            || is_separator(path[i + 1], platform)))) {
            return i;
        }
        i += 1;
    }
    i
}

fn find_part_end(path: &[char], platform: Platform, from: usize) -> (r: usize)
    requires
        from <= path@.len(),
    ensures
        r == part_end(path@, platform, from as int),
        from <= r <= path@.len(),
        from < path@.len() && !separates(path@[from as int], platform) ==> from < r,
{
    proof {
        parts_are_within(path@, platform, from as int);
    }
    let mut i: usize = from;
    while i < path.len() && !is_separator(path[i], platform)
        invariant
            from <= i <= path@.len(),
            part_end(path@, platform, from as int) == part_end(path@, platform, i as int),
        decreases path@.len() - i,
    {
        i += 1;
    }
    i
}

fn find_content_end(path: &[char], platform: Platform, start: usize) -> (r: usize)
    requires
        start <= path@.len(),
    ensures
        r == content_end(path@, platform, start as int, path@.len() as int),
        start <= r <= path@.len(),
{
    let mut end: usize = path.len();
    while end > start && (is_separator(path[end - 1], platform) || (path[end - 1] == '.' && end >= 2
        && is_separator(path[end - 2], platform)))
        invariant
            start <= end <= path@.len(),
            content_end(path@, platform, start as int, path@.len() as int) == content_end(
                path@,
                platform,
                start as int,
                end as int,
            ),
        decreases end,
    {
        end -= 1;
    }
    end
}

fn is_starting_here(path: &[char], platform: Platform) -> (r: bool)
    ensures
        r == starts_here(path@, platform),
{
    path.len() > 0 && path[0] == '.' && (path.len() == 1 || is_separator(path[1], platform))
}

fn find_start(path: &[char], platform: Platform) -> (r: usize)
    ensures
        r == start_len(path@, platform),
        r <= path@.len(),
{
    match platform {
        Platform::Posix => if is_absolute_text(path, platform) || is_starting_here(path, platform) {
            1
        } else {
            0
        },
        Platform::Windows => find_prefix(path),
    }
}

fn is_same_start(path: &[char], root: &[char]) -> (r: bool)
    ensures
        r == same_start(path@, root@),
{
    let platform = platform_of_text(root);
    match platform {
        Platform::Posix => is_absolute_text(path, platform) == is_absolute_text(root, platform)
            && is_starting_here(path, platform) == is_starting_here(root, platform),
        Platform::Windows => {
            let start: usize = find_prefix(root);
            proof {
                separators_are_found(root@, 4, 0);
                separators_are_found(root@, 6, 0);
            }
            if start > path.len() || (start < path.len() && !is_separator(path[start], platform)
                && !is_separator(path[start - 1], platform)) {
                return false;
            }
            let ours = vstd::slice::slice_subrange(path, 0, start);
            let theirs = vstd::slice::slice_subrange(root, 0, start);
            assert(ours@ =~= path@.take(start as int));
            assert(theirs@ =~= root@.take(start as int));
            if names_drive(root) {
                let ours = text::to_lower(ours);
                let theirs = text::to_lower(theirs);
                start < path.len() && text::same(ours.as_slice(), theirs.as_slice())
            } else {
                let ours = text::to_slashes(ours);
                let theirs = text::to_slashes(theirs);
                text::same(ours.as_slice(), theirs.as_slice())
            }
        },
    }
}

fn find_after(path: &[char], root: &[char]) -> (r: Option<usize>)
    ensures
        match (r, after(path@, root@)) {
            (Some(start), Some(s)) => start == s && s <= path@.len(),
            (None, None) => true,
            _ => false,
        },
{
    if !is_same_start(path, root) {
        return None;
    }
    let platform = platform_of_text(root);
    let start: usize = find_start(root, platform);
    let mut i: usize = start;
    let mut j: usize = start;
    loop
        invariant
            i <= path@.len(),
            j <= root@.len(),
            platform == self::platform(root@),
            start == start_len(root@, platform),
            same_start(path@, root@),
            after(path@, root@) == after_from(path@, i as int, root@, j as int, platform),
        decreases root@.len() - j,
    {
        let a: usize = find_part(path, platform, i);
        let b: usize = find_part(root, platform, j);
        if b >= root.len() {
            return Some(a);
        }
        if a >= path.len() {
            return None;
        }
        let a_end: usize = find_part_end(path, platform, a);
        let b_end: usize = find_part_end(root, platform, b);
        if !text::same(
            vstd::slice::slice_subrange(path, a, a_end),
            vstd::slice::slice_subrange(root, b, b_end),
        ) {
            return None;
        }
        i = a_end;
        j = b_end;
    }
}

/// The place of a character in the order of paths, in which separators come first.
pub open spec fn rank(c: char, platform: Platform) -> int {
    if separates(c, platform) {
        -1
    } else {
        c as int
    }
}

/// `a` comes strictly before `b` in the order of paths, read from `i`.
pub open spec fn before_from(a: Seq<char>, b: Seq<char>, i: int) -> bool
    decreases a.len() - i,
{
    if i < 0 || i >= b.len() {
        false
    } else if i >= a.len() {
        true
    } else if a[i] != b[i] {
        rank(a[i], platform(a)) < rank(b[i], platform(a))
    } else {
        before_from(a, b, i + 1)
    }
}

/// `a` comes strictly before `b` in the order of paths, which goes by their parts. Both are
/// paths of the system that `a` belongs to.
pub open spec fn before(a: Seq<char>, b: Seq<char>) -> bool {
    before_from(a, b, 0)
}

/// A path is a directory or lies below it.
pub fn is_within(path: &str, root: &str) -> (r: bool)
    ensures
        r == within(path@, root@),
{
    let root = text::to_chars(root);
    root.len() == 0 || find_after(text::to_chars(path).as_slice(), root.as_slice()).is_some()
}

/// The path below a directory.
pub fn relative_to(path: &str, root: &str) -> (r: Option<String>)
    ensures
        r.deep_view() == below(path@, root@),
{
    let path = text::to_chars(path);
    let path = path.as_slice();
    let root = text::to_chars(root);
    if root.len() == 0 {
        let start: usize = find_start(path, Platform::Posix);
        let end: usize = find_content_end(path, Platform::Posix, start);
        let whole = vstd::slice::slice_subrange(path, 0, end);
        assert(whole@ =~= path@.take(end as int));
        return Some(text::to_text(whole));
    }
    match find_after(path, root.as_slice()) {
        Some(start) => {
            let end: usize = find_content_end(path, platform_of_text(root.as_slice()), start);
            Some(text::to_text(vstd::slice::slice_subrange(path, start, end)))
        },
        None => None,
    }
}

/// Two paths have the same parts.
pub fn are_alike(path: &str, root: &str) -> (r: bool)
    ensures
        r == alike(path@, root@),
{
    match relative_to(path, root) {
        Some(rest) => {
            let rest = text::to_chars(rest.as_str());
            assert(rest@.len() == 0 ==> rest@ =~= Seq::<char>::empty());
            rest.len() == 0
        },
        None => false,
    }
}

fn ranks_lower(a: char, b: char, platform: Platform) -> (r: bool)
    ensures
        r == (rank(a, platform) < rank(b, platform)),
{
    if is_separator(b, platform) {
        false
    } else if is_separator(a, platform) {
        true
    } else {
        a < b
    }
}

/// `a` comes strictly before `b` in the order of paths.
pub fn comes_before(a: &[char], b: &[char]) -> (r: bool)
    ensures
        r == before(a@, b@),
{
    let platform = platform_of_text(a);
    let mut i: usize = 0;
    while i < a.len() && i < b.len()
        invariant
            i <= a@.len(),
            i <= b@.len(),
            platform == self::platform(a@),
            before(a@, b@) == before_from(a@, b@, i as int),
        decreases a@.len() - i,
    {
        if a[i] != b[i] {
            return ranks_lower(a[i], b[i], platform);
        }
        i += 1;
    }
    i < b.len()
}

/// The list with a path at its place in the order of paths, looked for from `i` on;
/// unchanged where the list holds the path.
pub open spec fn inserted_from(list: Seq<Seq<char>>, item: Seq<char>, i: int) -> Seq<Seq<char>>
    decreases list.len() - i,
{
    if i < 0 || i >= list.len() {
        list.push(item)
    } else if list[i] == item {
        list
    } else if before(item, list[i]) {
        list.insert(i, item)
    } else {
        inserted_from(list, item, i + 1)
    }
}

/// Puts a path at its place in the order of paths; says whether it is new.
pub fn insert(list: &mut Vec<String>, item: String) -> (r: bool)
    ensures
        final(list).deep_view() == inserted_from(old(list).deep_view(), item@, 0),
        r == (final(list).deep_view().len() != old(list).deep_view().len()),
{
    let ghost all = list.deep_view();
    let chars = text::to_chars(item.as_str());
    let mut i: usize = 0;
    while i < list.len()
        invariant
            i <= list@.len(),
            chars@ == item@,
            *list == *old(list),
            all == list.deep_view(),
            inserted_from(all, item@, 0) == inserted_from(all, item@, i as int),
        decreases list@.len() - i,
    {
        assert(all[i as int] == list@[i as int]@);
        let present = text::to_chars(list[i].as_str());
        if text::same(present.as_slice(), chars.as_slice()) {
            return false;
        }
        if comes_before(chars.as_slice(), present.as_slice()) {
            list.insert(i, item);
            assert(list.deep_view() =~= all.insert(i as int, item@));
            return true;
        }
        i += 1;
    }
    list.push(item);
    assert(list.deep_view() =~= all.push(item@));
    true
}

proof fn separators_are_within(path: Seq<char>, n: int, i: int)
    requires
        0 <= i <= path.len(),
    ensures
        i <= separator_from(path, n, i) <= path.len(),
        separator_from(path, n, i) < path.len() ==> separates(
            path[separator_from(path, n, i)],
            Platform::Windows,
        ),
    decreases path.len() - i,
{
    if i < path.len() {
        separators_are_within(path, n, i + 1);
        separators_are_within(path, n - 1, i + 1);
    }
}

proof fn separators_are_found(path: Seq<char>, n: int, i: int)
    requires
        n > 1,
        0 <= i < path.len(),
    ensures
        separator_from(path, n, i) > i,
{
    separators_are_within(path, n, i + 1);
    separators_are_within(path, n - 1, i + 1);
}

proof fn parts_stand_alike(path: Seq<char>, root: Seq<char>, platform: Platform, i: int)
    requires
        0 <= i <= root.len(),
        root.len() < path.len() ==> root.len() == 0 || separates(root.last(), platform)
            || separates(path[root.len() as int], platform),
        text::begins(path, root),
    ensures
        ({
            let b = part_from(root, platform, i);
            b < root.len() ==> part_from(path, platform, i) == b
        }),
        i < root.len() && !separates(root[i], platform) ==> part_end(path, platform, i) == part_end(
            root,
            platform,
            i,
        ),
    decreases root.len() - i,
{
    assert forall|k: int| 0 <= k < root.len() implies path[k] == root[k] by {
        assert(path.subrange(0, root.len() as int)[k] == path[k]);
    }
    if i < root.len() {
        parts_stand_alike(path, root, platform, i + 1);
        if i + 1 == root.len() {
            assert(part_end(root, platform, i + 1) == root.len());
            assert(path.len() == root.len() ==> part_end(path, platform, i + 1) == path.len());
            if root.len() < path.len() && !separates(root[i], platform) {
                assert(separates(path[i + 1], platform));
                assert(part_end(path, platform, i + 1) == i + 1);
            }
        } else if separates(root[i + 1], platform) {
            assert(part_end(path, platform, i + 1) == i + 1);
            assert(part_end(root, platform, i + 1) == i + 1);
        }
    }
}

proof fn longer_paths_come_after(path: Seq<char>, root: Seq<char>, platform: Platform, i: int)
    requires
        0 <= i <= root.len(),
        root.len() < path.len() ==> root.len() == 0 || separates(root.last(), platform)
            || separates(path[root.len() as int], platform),
        text::begins(path, root),
    ensures
        after_from(path, i, root, i, platform) is Some,
    decreases root.len() - i,
{
    parts_are_within(root, platform, i);
    let b = part_from(root, platform, i);
    if b < root.len() {
        parts_stand_alike(path, root, platform, i);
        parts_are_within(root, platform, b);
        parts_stand_alike(path, root, platform, b);
        let end = part_end(root, platform, b);
        assert(path.subrange(b, end) =~= root.subrange(b, end)) by {
            assert forall|k: int| 0 <= k < root.len() implies path[k] == root[k] by {
                assert(path.subrange(0, root.len() as int)[k] == path[k]);
            }
        }
        longer_paths_come_after(path, root, platform, end);
    }
}

proof fn first_piece_is_long(s: Seq<char>, c: char, start: int, i: int)
    requires
        0 <= start <= i <= s.len(),
    ensures
        text::pieces_from(s, c, start, i).len() > 0,
        text::pieces_from(s, c, start, i)[0].len() >= i - start,
    decreases s.len() - i,
{
    if i < s.len() && s[i] != c {
        first_piece_is_long(s, c, start, i + 1);
    }
}

proof fn shares_begin_with_separators(path: Seq<char>)
    requires
        has_share(path),
    ensures
        text::begins(text::slashed(path), "/"@),
{
    let shown = text::slashed(path);
    reveal_strlit("/");
    if shown.len() > 0 && shown[0] != '/' {
        first_piece_is_long(shown, '/', 0, 1);
    }
    assert(shown.len() > 0);
    assert(shown.subrange(0, 1) =~= "/"@);
}

proof fn followed_names_stay_below(
    root: Seq<char>,
    path: Seq<char>,
    parts: Seq<Seq<char>>,
    i: int,
)
    requires
        0 <= i,
        root.len() > 0,
        path == root || text::begins(path, with_backslash(root)),
        !parts.contains(".."@),
    ensures
        ({
            let end = followed_from(path, parts, i);
            end == root || text::begins(end, with_backslash(root))
        }),
    decreases parts.len() - i,
{
    if i < parts.len() {
        assert(parts.contains(parts[i]));
        let start = with_backslash(root);
        if parts[i].len() == 0 || parts[i] == "."@ {
            followed_names_stay_below(root, path, parts, i + 1);
        } else {
            let next = with_backslash(path) + parts[i];
            assert(next.subrange(0, start.len() as int) =~= start) by {
                if path != root {
                    assert(path.subrange(0, start.len() as int) == start);
                    assert forall|k: int| 0 <= k < start.len() implies next[k] == start[k] by {
                        assert(path.subrange(0, start.len() as int)[k] == path[k]);
                    }
                }
            }
            followed_names_stay_below(root, next, parts, i + 1);
        }
    }
}

/// A directory lies within itself, and so does every path that begins with its text and a
/// separator.
pub proof fn extended_paths_stay_below(path: Seq<char>, root: Seq<char>)
    requires
        root.len() > 0,
        path == root || text::begins(path, with_separator(root)),
    ensures
        within(path, root),
{
    let platform = platform(root);
    let start = start_len(root, platform);
    let whole = with_separator(root);
    if path == root {
        assert(path.subrange(0, root.len() as int) =~= root);
    } else {
        assert forall|k: int| 0 <= k < whole.len() implies path[k] == whole[k] by {
            assert(path.subrange(0, whole.len() as int)[k] == path[k]);
        }
        assert(path.subrange(0, root.len() as int) =~= root);
    }
    if platform == Platform::Windows {
        separators_are_within(root, 4, 0);
        separators_are_within(root, 6, 0);
        if has_share(root) {
            shares_begin_with_separators(root);
            reveal_strlit("/");
            let shown = text::slashed(root);
            assert(shown.subrange(0, 1)[0] == shown[0]);
        }
        separators_are_found(root, 4, 0);
        separators_are_found(root, 6, 0);
        if path != root && start < path.len() {
            assert(path[start - 1] == whole[start - 1]);
            assert(start < whole.len() ==> path[start] == whole[start]);
        }
    } else {
        assert(path[0] == root[0]);
        assert(whole.len() > 1 && path != root ==> path[1] == whole[1]);
    }
    assert(same_start(path, root)) by {
        assert(path.take(start) =~= root.take(start));
    }
    assert(path.take(start) =~= root.take(start));
    longer_paths_come_after(path, root, platform, start);
}

/// A path that leads nowhere but down names something below every directory that it is
/// joined to.
pub proof fn descending_paths_stay_below(root: Seq<char>, part: Seq<char>)
    requires
        descends(part, platform(root)),
    ensures
        within(joined(root, part), root),
{
    reveal_strlit("/");
    let start = with_separator(root);
    let whole = joined(root, part);
    let shown = portable(part, platform(root));
    if part.len() > 0 && shown[0] == '/' {
        assert(shown.subrange(0, 1) =~= "/"@);
    }
    if platform(root) == Platform::Windows {
        if has_share(part) {
            shares_begin_with_separators(part);
        }
        if part.len() > 0 && verbatim(root) {
            followed_names_stay_below(root, root, text::pieces(text::slashed(part), '/'), 0);
        }
    }
    if whole == start + part {
        assert(whole.subrange(0, start.len() as int) =~= start);
    }
    if root.len() > 0 {
        extended_paths_stay_below(whole, root);
    }
}

} // verus!
