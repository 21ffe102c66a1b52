//! Where the private state of a repository lies, and what may lie there.

use vstd::prelude::*;
use crate::path;
use crate::path::Platform;
use crate::repository_map;
use crate::repository_map::projection;
use crate::repository_map::projection::inventory;
use crate::repository_map::{
    decode_index, RepositoryInventory, RepositoryMapError, RepositoryMapErrorModel,
    RepositoryMapIndex, RepositoryMapIndexModel, MAX_INDEX_BYTES,
};
use crate::text;

verus! {

broadcast use vstd::string::group_string_axioms;

/// The name of the file that an index is kept in.
pub const INDEX_FILE: &'static str = "index-v1.json";

/// The directory that the `.git` file of a linked worktree names.
pub open spec fn named_git_dir(content: Seq<char>, workspace: Seq<char>) -> Option<Seq<char>> {
    match text::after_prefix(text::trimmed(content), "gitdir: "@) {
        Some(directory) => Some(path::joined(workspace, directory)),
        None => None,
    }
}

/// The directory that the `.git` file of a linked worktree names. A relative one is meant
/// from the workspace.
pub fn git_dir_in_file(content: &str, workspace: &str) -> (r: Option<String>)
    ensures
        r.deep_view() == named_git_dir(content@, workspace@),
{
    let chars = text::to_chars(content);
    match text::strip_prefix(text::trim(chars.as_slice()), "gitdir: ") {
        Some(directory) => {
            let directory = text::to_text(directory);
            Some(path::join(workspace, directory.as_str()))
        },
        None => None,
    }
}

/// A path that is not empty and goes down by names alone. Empty parts and single dots behind
/// the first part count for nothing.
pub open spec fn plain_path(relative: Seq<char>, platform: Platform) -> bool {
    relative.len() > 0 && path::descends(relative, platform) && text::pieces(
        path::portable(relative, platform),
        '/',
    )[0] != "."@
}

/// A path that is not empty and goes down by names alone.
pub fn is_plain_path(relative: &str, platform: Platform) -> (r: bool)
    ensures
        r == plain_path(relative@, platform),
{
    let chars = text::to_chars(relative);
    if chars.len() == 0 || !path::is_descending(relative, platform) {
        return false;
    }
    let shown = path::to_portable(chars.as_slice(), platform);
    let parts = text::split(shown.as_slice(), '/');
    proof {
        text::pieces_are_some(shown@, '/');
        assert(text::views(parts@)[0] == parts@[0]@);
    }
    !text::is(parts[0], ".")
}

/// A path with the names before `i` below it, the last one first.
pub open spec fn extended(path: Seq<char>, missing: Seq<Seq<char>>, i: int) -> Seq<char>
    decreases i,
{
    if i <= 0 || i > missing.len() {
        path
    } else {
        extended(path::joined(path, missing[i - 1]), missing, i - 1)
    }
}

/// The path of the state below the directory of Git, for a directory that exists and the
/// names below it that do not.
pub open spec fn state_path(
    git_dir: Seq<char>,
    ancestor: Seq<char>,
    missing: Seq<Seq<char>>,
) -> Option<Seq<char>> {
    match path::below(ancestor, git_dir) {
        Some(relative) => {
            let whole = extended(relative, missing, missing.len() as int);
            if plain_path(whole, path::platform(git_dir)) {
                Some(whole)
            } else {
                None
            }
        },
        None => None,
    }
}

/// The path of the state below the directory of Git. `ancestor` is the innermost directory
/// above the state that exists, without links, and `missing` are the names below it that
/// do not, the innermost first. Where the state itself is given below the directory of Git,
/// it is its own ancestor.
pub fn relative_state_path(git_dir: &str, ancestor: &str, missing: &Vec<String>) -> (r: Result<
    String,
    RepositoryMapError,
>)
    ensures
        match (r, state_path(git_dir@, ancestor@, missing.deep_view())) {
            (Ok(path), Some(p)) => path@ == p,
            (Err(error), None) => error.deep_view()
                == RepositoryMapErrorModel::StateRootOutsideGitService,
            _ => false,
        },
{
    let ghost all = missing.deep_view();
    let start = match path::relative_to(ancestor, git_dir) {
        Some(relative) => relative,
        None => {
            return Err(RepositoryMapError::StateRootOutsideGitService);
        },
    };
    let ghost begin = start@;
    let mut relative = start;
    let mut i: usize = missing.len();
    while i > 0
        invariant
            i <= missing@.len(),
            all == missing.deep_view(),
            path::below(ancestor@, git_dir@) == Some(begin),
            extended(begin, all, all.len() as int) == extended(relative@, all, i as int),
        decreases i,
    {
        assert(all[i - 1] == missing@[i - 1]@);
        relative = path::join(relative.as_str(), missing[i - 1].as_str());
        i -= 1;
    }
    if is_plain_path(relative.as_str(), path::platform_of(git_dir)) {
        Ok(relative)
    } else {
        Err(RepositoryMapError::StateRootOutsideGitService)
    }
}

/// A state directory, without links, lies below the directory of Git.
pub fn check_state_root(git_dir: &str, canonical: &str) -> (r: Result<(), RepositoryMapError>)
    ensures
        match r {
            Ok(_) => path::within(canonical@, git_dir@),
            Err(error) => !path::within(canonical@, git_dir@) && error.deep_view()
                == RepositoryMapErrorModel::StateRootOutsideGitService,
        },
{
    if path::is_within(canonical, git_dir) {
        Ok(())
    } else {
        Err(RepositoryMapError::StateRootOutsideGitService)
    }
}

pub open spec fn lower_hex(c: char) -> bool {
    text::ascii_digit(c) || ('a' <= c && c <= 'f')
}

/// The name of a request: sixty-four hexadecimal digits without capitals, and `.json`.
pub open spec fn request_id(id: Seq<char>) -> bool {
    &&& id.len() == 69
    &&& text::finishes(id, ".json"@)
    &&& forall|i: int| 0 <= i < 64 ==> lower_hex(#[trigger] id[i])
}

/// Checks the name of a request.
pub fn validate_request_id(id: &str) -> (r: Result<(), RepositoryMapError>)
    ensures
        match r {
            Ok(_) => request_id(id@),
            Err(error) => !request_id(id@) && error.deep_view()
                == RepositoryMapErrorModel::InvalidPrivateRequest,
        },
{
    let chars = text::to_chars(id);
    if chars.len() != 69 || !text::ends_with(chars.as_slice(), ".json") {
        return Err(RepositoryMapError::InvalidPrivateRequest);
    }
    let mut i: usize = 0;
    while i < 64
        invariant
            i <= 64,
            chars@.len() == 69,
            chars@ == id@,
            forall|k: int| 0 <= k < i ==> lower_hex(#[trigger] chars@[k]),
        decreases 64 - i,
    {
        let c = chars[i];
        if !(text::is_digit(c) || ('a' <= c && c <= 'f')) {
            assert(!lower_hex(id@[i as int]));
            return Err(RepositoryMapError::InvalidPrivateRequest);
        }
        i += 1;
    }
    Ok(())
}

/// Checks a request that is kept before it is read, and again for what was read of it.
pub fn check_request_size(is_file: bool, bytes: u64, max_bytes: u64) -> (r: Result<
    (),
    RepositoryMapError,
>)
    ensures
        match r {
            Ok(_) => is_file && bytes <= max_bytes,
            Err(error) => !(is_file && bytes <= max_bytes) && error.deep_view()
                == RepositoryMapErrorModel::InvalidPrivateRequest,
        },
{
    if !is_file || bytes > max_bytes {
        return Err(RepositoryMapError::InvalidPrivateRequest);
    }
    Ok(())
}

/// An index of that many bytes may be loaded.
pub fn is_loadable(bytes: u64) -> (r: bool)
    ensures
        r == (bytes <= MAX_INDEX_BYTES),
{
    bytes <= MAX_INDEX_BYTES as u64
}

/// The index that is loaded from a file of that many bytes, or from none: one that is too
/// large counts as none, and so does one that is not accepted.
pub open spec fn loaded(bytes: Option<u64>, index: Option<RepositoryMapIndexModel>) -> Option<
    RepositoryMapIndexModel,
> {
    match bytes {
        Some(bytes) => if bytes <= MAX_INDEX_BYTES {
            repository_map::accepted(index)
        } else {
            None
        },
        None => None,
    }
}

/// Loads an index. `bytes` is the size of its file, where there is one, and `index` what the
/// file holds, where it can be read.
pub fn load(bytes: Option<u64>, index: Option<RepositoryMapIndex>) -> (r: Option<
    RepositoryMapIndex,
>)
    ensures
        r.deep_view() == loaded(bytes, index.deep_view()),
{
    match bytes {
        Some(bytes) => {
            if is_loadable(bytes) {
                decode_index(index)
            } else {
                None
            }
        },
        None => None,
    }
}

/// The inventory of the index that is loaded, where one is.
pub fn inventory_from_state(bytes: Option<u64>, index: Option<RepositoryMapIndex>) -> (r: Option<
    RepositoryInventory,
>)
    requires
        loaded(bytes, index.deep_view()) matches Some(index) ==> projection::countable(index),
    ensures
        r.deep_view() == match loaded(bytes, index.deep_view()) {
            Some(index) => Some(projection::inventory_of(index)),
            None => None,
        },
{
    match load(bytes, index) {
        Some(index) => Some(inventory(&index)),
        None => None,
    }
}

/// The name under which an index is written before it takes the place of the old one.
pub fn temporary_name(nonce: u128) -> (r: String)
    ensures
        r@ == "."@ + INDEX_FILE@ + "."@ + text::decimal(nonce as nat) + ".tmp"@,
{
    let number = text::format_wide(nonce);
    let front = text::concat(".", INDEX_FILE);
    let front = text::concat(front.as_str(), ".");
    let front = text::concat(front.as_str(), text::to_text(number.as_slice()).as_str());
    text::concat(front.as_str(), ".tmp")
}

/// State lies below the directory of Git: the path to it is not empty, is not absolute and
/// leads nowhere upwards.
pub proof fn state_stays_below_git(
    git_dir: Seq<char>,
    ancestor: Seq<char>,
    missing: Seq<Seq<char>>,
)
    ensures
        state_path(git_dir, ancestor, missing) matches Some(relative) ==> {
            &&& path::below(ancestor, git_dir) is Some
            &&& relative.len() > 0
            &&& path::descends(relative, path::platform(git_dir))
        },
{
}

} // verus!
