//! Bringing an index up to date: which files it is about, which facts are kept and which
//! are made anew, and how an index that is too large is cut off.

pub mod laws;

use vstd::prelude::*;
use crate::digest;
use crate::json;
use crate::json::ToJson;
use crate::list;
use crate::list::Duplicate;
use crate::path;
use crate::repository_map;
use crate::repository_map::cargo;
use crate::repository_map::syntax;
use crate::repository_map::syntax::{SyntaxEvent, SyntaxEventModel};
use crate::repository_map::{
    classify_path, finalize_completeness, language_for, CargoFacts, CargoFactsModel, Completeness,
    FileFact, FileFactModel, LanguageClass, OmissionCounts, OmissionCountsModel, RefreshResult,
    RefreshResultModel, RepositoryMapError, RepositoryMapErrorModel, RepositoryMapIndex,
    RepositoryMapIndexModel, RustParseStatus, RustParseStatusModel, INDEX_SCHEMA,
    MAX_INDEXED_FILE_BYTES, MAX_INDEX_BYTES, MAX_PATH_BYTES, MAX_WALKED_FILES,
};
use crate::text;

verus! {

broadcast use vstd::string::group_string_axioms;

/// A file that the index is about: its path below the workspace, and where it lies.
#[derive(Clone, Debug, PartialEq, Eq)]
pub struct Candidate {
    pub path: String,
    pub disk_path: String,
}

/// What a `Candidate` says.
pub struct CandidateModel {
    pub path: Seq<char>,
    pub disk_path: Seq<char>,
}

impl DeepView for Candidate {
    type V = CandidateModel;

    open spec fn deep_view(&self) -> CandidateModel {
        CandidateModel {
            path: self.path@,
            disk_path: self.disk_path@,
        }
    }
}

/// What a walk through the workspace has found so far: the files in the order of their paths, and
/// what was left out.
#[derive(Clone, Debug, PartialEq, Eq)]
pub struct Walk {
    pub candidates: Vec<Candidate>,
    pub omissions: OmissionCounts,
}

/// What a `Walk` says.
pub struct WalkModel {
    pub candidates: Seq<CandidateModel>,
    pub omissions: OmissionCountsModel,
}

impl DeepView for Walk {
    type V = WalkModel;

    open spec fn deep_view(&self) -> WalkModel {
        WalkModel {
            candidates: self.candidates.deep_view(),
            omissions: self.omissions.deep_view(),
        }
    }
}

#[derive(Clone, Copy, Debug, PartialEq, Eq, Structural)]
pub enum EntryKind {
    Symlink,
    File,
    Other,
}

/// What a walk meets. The path is exact where it is text; otherwise what stands for the
/// other bytes is in it.
#[derive(Debug, PartialEq, Eq)]
pub enum WalkEntry {
    Failed,
    Found { path: String, exact: bool, kind: Option<EntryKind> },
}

/// What a `WalkEntry` says.
pub enum WalkEntryModel {
    Failed,
    Found { path: Seq<char>, exact: bool, kind: Option<EntryKind> },
}

impl DeepView for WalkEntry {
    type V = WalkEntryModel;

    open spec fn deep_view(&self) -> WalkEntryModel {
        match self {
            WalkEntry::Failed => WalkEntryModel::Failed,
            WalkEntry::Found { path, exact, kind } => WalkEntryModel::Found {
                path: path@,
                exact: *exact,
                kind: *kind,
            },
        }
    }
}

/// A walk goes into everything but the directories of Git below its start.
pub open spec fn goes_into(depth: nat, name: Seq<char>) -> bool {
    depth == 0 || text::lowered(name) != ".git"@
}

/// A walk goes into everything but the directories of Git below its start.
pub fn walks_into(depth: usize, name: &str) -> (r: bool)
    ensures
        r == goes_into(depth as nat, name@),
{
    depth == 0 || !text::is(text::to_lower(text::to_chars(name).as_slice()).as_slice(), ".git")
}

/// The path of a file below the workspace, with forward slashes.
pub open spec fn relative_path(path: Seq<char>, exact: bool, workspace: Seq<char>) -> Option<
    Seq<char>,
> {
    match path::below(path, workspace) {
        Some(relative) => if !path::descends(relative, path::platform(workspace)) || !exact {
            None
        } else {
            Some(text::slashed(relative))
        },
        None => None,
    }
}

/// The walk went into every part of the path at which it met an entry.
pub open spec fn was_gone_into(entry: WalkEntryModel, workspace: Seq<char>) -> bool {
    match entry {
        WalkEntryModel::Failed => true,
        WalkEntryModel::Found { path, exact, .. } => match relative_path(path, exact, workspace) {
            Some(relative) => {
                let names = text::pieces(relative, '/');
                forall|k: int|
                    0 <= k < names.len() ==> goes_into((k + 1) as nat, #[trigger] names[k])
            },
            None => true,
        },
    }
}

/// No part of a path is a directory of Git.
pub open spec fn leaves_git_out(path: Seq<char>) -> bool {
    let names = text::pieces(path, '/');
    forall|k: int| 0 <= k < names.len() ==> text::lowered(#[trigger] names[k]) != ".git"@
}

/// How many of the first candidates come before a path.
pub open spec fn place_from(candidates: Seq<CandidateModel>, path: Seq<char>, i: int) -> int
    decreases candidates.len() - i,
{
    if i < 0 || i >= candidates.len() || !text::before(candidates[i].path, path) {
        i
    } else {
        place_from(candidates, path, i + 1)
    }
}

/// The candidates with one more at its place; one with the same path is replaced.
pub open spec fn with_candidate(
    candidates: Seq<CandidateModel>,
    candidate: CandidateModel,
) -> Seq<CandidateModel> {
    let place = place_from(candidates, candidate.path, 0);
    if place < candidates.len() && candidates[place].path == candidate.path {
        candidates.update(place, candidate)
    } else {
        candidates.insert(place, candidate)
    }
}

/// The paths increase.
pub open spec fn candidates_increase(candidates: Seq<CandidateModel>) -> bool {
    forall|i: int, j: int|
        0 <= i < j < candidates.len() ==> text::before(
            (#[trigger] candidates[i]).path,
            (#[trigger] candidates[j]).path,
        )
}

impl WalkModel {
    /// The walk with one file more. Of too many files those with the smallest paths stay.
    pub open spec fn with_file(self, path: Seq<char>, disk_path: Seq<char>) -> WalkModel {
        let candidate = CandidateModel { path, disk_path };
        if self.candidates.len() >= MAX_WALKED_FILES {
            let omissions = OmissionCountsModel {
                walked_limit: self.omissions.walked_limit + 1,
                ..self.omissions
            };
            if !text::before(path, self.candidates.last().path) {
                WalkModel { omissions, ..self }
            } else {
                WalkModel {
                    candidates: with_candidate(self.candidates.drop_last(), candidate),
                    omissions,
                }
            }
        } else {
            WalkModel { candidates: with_candidate(self.candidates, candidate), ..self }
        }
    }

    /// The walk with one entry more.
    pub open spec fn after(
        self,
        entry: WalkEntryModel,
        workspace: Seq<char>,
        state_root: Seq<char>,
    ) -> WalkModel {
        match entry {
            WalkEntryModel::Failed => WalkModel {
                omissions: OmissionCountsModel {
                    walk_errors: self.omissions.walk_errors + 1,
                    ..self.omissions
                },
                ..self
            },
            WalkEntryModel::Found { path, exact, kind } => if path::alike(path, workspace)
                || path::within(path, state_root) {
                self
            } else {
                let invalid = WalkModel {
                    omissions: OmissionCountsModel {
                        invalid_paths: self.omissions.invalid_paths + 1,
                        ..self.omissions
                    },
                    ..self
                };
                match kind {
                    None => invalid,
                    Some(EntryKind::Symlink) => WalkModel {
                        omissions: OmissionCountsModel {
                            symlinks: self.omissions.symlinks + 1,
                            ..self.omissions
                        },
                        ..self
                    },
                    Some(EntryKind::Other) => self,
                    Some(EntryKind::File) => match relative_path(path, exact, workspace) {
                        None => invalid,
                        Some(relative) => if text::byte_len(relative) > MAX_PATH_BYTES {
                            WalkModel {
                                omissions: OmissionCountsModel {
                                    path_too_long: self.omissions.path_too_long + 1,
                                    ..self.omissions
                                },
                                ..self
                            }
                        } else {
                            self.with_file(relative, path)
                        },
                    },
                }
            },
        }
    }

    /// Each count of the walk is at most `n`, and the counts of what comes later are none.
    pub open spec fn counts_at_most(self, n: int) -> bool {
        &&& self.omissions.walked_limit <= n
        &&& self.omissions.walk_errors <= n
        &&& self.omissions.symlinks <= n
        &&& self.omissions.invalid_paths <= n
        &&& self.omissions.path_too_long <= n
        &&& self.omissions.oversized_files == 0
        &&& self.omissions.malformed_rust == 0
        &&& self.omissions.index_limit == 0
    }

    /// The candidates are in order and not too many.
    pub open spec fn is_valid(self) -> bool {
        candidates_increase(self.candidates) && self.candidates.len() <= MAX_WALKED_FILES
    }
}

/// The walk behind the entries from `i` on.
pub open spec fn walked_from(
    entries: Seq<WalkEntryModel>,
    workspace: Seq<char>,
    state_root: Seq<char>,
    i: int,
    walk: WalkModel,
) -> WalkModel
    decreases entries.len() - i,
{
    if i < 0 || i >= entries.len() {
        walk
    } else {
        walked_from(
            entries,
            workspace,
            state_root,
            i + 1,
            walk.after(entries[i], workspace, state_root),
        )
    }
}

/// A walk that has met nothing.
pub open spec fn new_walk() -> WalkModel {
    WalkModel {
        candidates: seq![],
        omissions: OmissionCountsModel {
            walked_limit: 0,
            walk_errors: 0,
            symlinks: 0,
            invalid_paths: 0,
            path_too_long: 0,
            oversized_files: 0,
            malformed_rust: 0,
            index_limit: 0,
        },
    }
}

fn normalized_relative(path: &str, exact: bool, workspace: &str) -> (r: Option<String>)
    ensures
        r.deep_view() == relative_path(path@, exact, workspace@),
{
    let relative = match path::relative_to(path, workspace) {
        Some(relative) => relative,
        None => {
            return None;
        },
    };
    if !path::is_descending(relative.as_str(), path::platform_of(workspace)) || !exact {
        return None;
    }
    let chars = text::to_chars(relative.as_str());
    let slashes = text::to_slashes(chars.as_slice());
    Some(text::to_text(slashes.as_slice()))
}

proof fn place_is_found(candidates: Seq<CandidateModel>, path: Seq<char>, place: int, i: int)
    requires
        0 <= i <= place <= candidates.len(),
        forall|k: int| i <= k < place ==> text::before((#[trigger] candidates[k]).path, path),
        place < candidates.len() ==> !text::before(candidates[place].path, path),
    ensures
        place_from(candidates, path, i) == place,
    decreases place - i,
{
    if i < place {
        place_is_found(candidates, path, place, i + 1);
    }
}

proof fn place_splits(candidates: Seq<CandidateModel>, path: Seq<char>, i: int)
    requires
        0 <= i <= candidates.len(),
        forall|k: int| 0 <= k < i ==> text::before((#[trigger] candidates[k]).path, path),
    ensures
        ({
            let place = place_from(candidates, path, i);
            &&& i <= place <= candidates.len()
            &&& forall|k: int|
                0 <= k < place ==> text::before((#[trigger] candidates[k]).path, path)
            &&& place < candidates.len() ==> !text::before(candidates[place].path, path)
        }),
    decreases candidates.len() - i,
{
    if i < candidates.len() && text::before(candidates[i].path, path) {
        place_splits(candidates, path, i + 1);
    }
}

proof fn candidates_keep_order(candidates: Seq<CandidateModel>, candidate: CandidateModel)
    requires
        candidates_increase(candidates),
    ensures
        candidates_increase(with_candidate(candidates, candidate)),
        with_candidate(candidates, candidate).len() <= candidates.len() + 1,
{
    place_splits(candidates, candidate.path, 0);
    let place = place_from(candidates, candidate.path, 0);
    let next = with_candidate(candidates, candidate);
    if place < candidates.len() {
        text::before_is_total(candidates[place].path, candidate.path);
    }
    assert forall|i: int, j: int| 0 <= i < j < next.len() implies text::before(
        (#[trigger] next[i]).path,
        (#[trigger] next[j]).path,
    ) by {
        if place < candidates.len() && candidates[place].path == candidate.path {
            assert(candidates[i].path == next[i].path);
            assert(candidates[j].path == next[j].path);
        } else {
            let a = if i < place {
                i
            } else {
                i - 1
            };
            let b = if j < place {
                j
            } else {
                j - 1
            };
            if i == place {
                if b > place {
                    assert(text::before(candidates[place].path, candidates[b].path));
                    text::before_is_transitive(
                        candidate.path,
                        candidates[place].path,
                        candidates[b].path,
                    );
                }
            } else if j == place {
                assert(next[i] == candidates[a]);
            } else {
                assert(next[i] == candidates[a] && next[j] == candidates[b]);
            }
        }
    }
}

proof fn first_candidates_are_in_order(candidates: Seq<CandidateModel>)
    requires
        candidates_increase(candidates),
        candidates.len() > 0,
    ensures
        candidates_increase(candidates.drop_last()),
{
    let rest = candidates.drop_last();
    assert forall|i: int, j: int| 0 <= i < j < rest.len() implies text::before(
        (#[trigger] rest[i]).path,
        (#[trigger] rest[j]).path,
    ) by {
        assert(rest[i] == candidates[i] && rest[j] == candidates[j]);
    }
}

/// Where a path stands or would stand among candidates in order.
fn find_place(candidates: &Vec<Candidate>, path: &str) -> (r: usize)
    requires
        candidates_increase(candidates.deep_view()),
    ensures
        r == place_from(candidates.deep_view(), path@, 0),
        r <= candidates@.len(),
{
    let ghost all = candidates.deep_view();
    let mut low: usize = 0;
    let mut high: usize = candidates.len();
    while low < high
        invariant
            low <= high <= candidates@.len(),
            all == candidates.deep_view(),
            candidates_increase(all),
            forall|k: int| 0 <= k < low ==> text::before((#[trigger] all[k]).path, path@),
            forall|k: int| high <= k < all.len() ==> !text::before((#[trigger] all[k]).path, path@),
        decreases high - low,
    {
        let middle: usize = low + (high - low) / 2;
        assert(all[middle as int] == candidates@[middle as int].deep_view());
        if text::precedes(candidates[middle].path.as_str(), path) {
            assert forall|k: int| 0 <= k < middle + 1 implies text::before(
                (#[trigger] all[k]).path,
                path@,
            ) by {
                if k < middle {
                    text::before_is_transitive(all[k].path, all[middle as int].path, path@);
                }
            }
            low = middle + 1;
        } else {
            assert forall|k: int| middle <= k < all.len() implies !text::before(
                (#[trigger] all[k]).path,
                path@,
            ) by {
                if k > middle && text::before(all[k].path, path@) {
                    text::before_is_transitive(all[middle as int].path, all[k].path, path@);
                }
            }
            high = middle;
        }
    }
    proof {
        place_is_found(all, path@, low as int, 0);
    }
    low
}

fn insert_candidate(candidates: &mut Vec<Candidate>, candidate: Candidate)
    requires
        candidates_increase(old(candidates).deep_view()),
    ensures
        final(candidates).deep_view() == with_candidate(
            old(candidates).deep_view(),
            candidate.deep_view(),
        ),
{
    let ghost all = candidates.deep_view();
    let place: usize = find_place(candidates, candidate.path.as_str());
    if place < candidates.len() {
        assert(all[place as int] == candidates@[place as int].deep_view());
        if text::same_text(candidates[place].path.as_str(), candidate.path.as_str()) {
            candidates.set(place, candidate);
            assert(candidates.deep_view() =~= all.update(place as int, candidate.deep_view()));
            return;
        }
    }
    candidates.insert(place, candidate);
    assert(candidates.deep_view() =~= all.insert(place as int, candidate.deep_view()));
}

impl Walk {
    /// A walk that has met nothing.
    pub fn new() -> (r: Walk)
        ensures
            r.deep_view() == new_walk(),
            r.deep_view().is_valid(),
    {
        let r = Walk { candidates: Vec::new(), omissions: OmissionCounts::default() };
        assert(r.candidates.deep_view() =~= Seq::empty());
        r
    }

    fn add_file(&mut self, path: String, disk_path: String)
        requires
            old(self).deep_view().is_valid(),
            old(self).omissions.walked_limit < u64::MAX,
        ensures
            final(self).deep_view() == old(self).deep_view().with_file(path@, disk_path@),
            final(self).deep_view().is_valid(),
    {
        let ghost all = self.candidates.deep_view();
        let candidate = Candidate { path, disk_path };
        let count: usize = self.candidates.len();
        if count >= MAX_WALKED_FILES {
            assert(all.last() == self.candidates@[count - 1].deep_view());
            self.omissions.walked_limit += 1;
            if !text::precedes(
                candidate.path.as_str(),
                self.candidates[count - 1].path.as_str(),
            ) {
                return;
            }
            let _ = self.candidates.pop();
            assert(self.candidates.deep_view() =~= all.drop_last());
            proof {
                first_candidates_are_in_order(all);
            }
        }
        proof {
            candidates_keep_order(self.candidates.deep_view(), candidate.deep_view());
        }
        insert_candidate(&mut self.candidates, candidate);
    }

    /// Takes in one entry of the walk.
    pub fn visit(&mut self, entry: &WalkEntry, workspace: &str, state_root: &str)
        requires
            old(self).deep_view().is_valid(),
            old(self).deep_view().counts_at_most(u64::MAX - 1),
        ensures
            final(self).deep_view() == old(self).deep_view().after(
                entry.deep_view(),
                workspace@,
                state_root@,
            ),
            final(self).deep_view().is_valid(),
    {
        match entry {
            WalkEntry::Failed => {
                self.omissions.walk_errors += 1;
            },
            WalkEntry::Found { path, exact, kind } => {
                if path::are_alike(path.as_str(), workspace) || path::is_within(
                    path.as_str(),
                    state_root,
                ) {
                    return;
                }
                match kind {
                    None => {
                        self.omissions.invalid_paths += 1;
                    },
                    Some(EntryKind::Symlink) => {
                        self.omissions.symlinks += 1;
                    },
                    Some(EntryKind::Other) => {},
                    Some(EntryKind::File) => {
                        match normalized_relative(path.as_str(), *exact, workspace) {
                            None => {
                                self.omissions.invalid_paths += 1;
                            },
                            Some(relative) => {
                                if text::count_bytes(relative.as_str()) > MAX_PATH_BYTES {
                                    self.omissions.path_too_long += 1;
                                } else {
                                    self.add_file(relative, text::copy(path.as_str()));
                                }
                            },
                        }
                    },
                }
            },
        }
    }
}

/// Takes in all entries of a walk.
pub fn gather(entries: &Vec<WalkEntry>, workspace: &str, state_root: &str) -> (r: Walk)
    ensures
        r.deep_view() == walked_from(
            entries.deep_view(),
            workspace@,
            state_root@,
            0,
            new_walk(),
        ),
        r.deep_view().is_valid(),
        r.deep_view().counts_at_most(entries@.len() as int),
{
    let ghost all = entries.deep_view();
    let count: usize = entries.len();
    let mut walk = Walk::new();
    let mut i: usize = 0;
    while i < count
        invariant
            i <= count,
            count == entries@.len(),
            all == entries.deep_view(),
            walk.deep_view().is_valid(),
            walk.deep_view().counts_at_most(i as int),
            walked_from(all, workspace@, state_root@, 0, new_walk()) == walked_from(
                all,
                workspace@,
                state_root@,
                i as int,
                walk.deep_view(),
            ),
        decreases count - i,
    {
        assert(all[i as int] == entries@[i as int].deep_view());
        walk.visit(&entries[i], workspace, state_root);
        i += 1;
    }
    walk
}

/// A candidate is a file among the first `n` entries of a walk, at its path below the workspace.
pub open spec fn was_found(
    candidate: CandidateModel,
    entries: Seq<WalkEntryModel>,
    workspace: Seq<char>,
    state_root: Seq<char>,
    n: int,
) -> bool {
    exists|k: int|
        0 <= k < n && #[trigger] entries[k] == (WalkEntryModel::Found {
            path: candidate.disk_path,
            exact: true,
            kind: Some(EntryKind::File),
        }) && relative_path(candidate.disk_path, true, workspace) == Some(candidate.path)
            && !path::within(candidate.disk_path, state_root) && text::byte_len(candidate.path)
            <= MAX_PATH_BYTES
}

proof fn candidates_were_found_from(
    entries: Seq<WalkEntryModel>,
    workspace: Seq<char>,
    state_root: Seq<char>,
    i: int,
    walk: WalkModel,
)
    requires
        0 <= i <= entries.len(),
        forall|c: int|
            0 <= c < walk.candidates.len() ==> was_found(
                #[trigger] walk.candidates[c],
                entries,
                workspace,
                state_root,
                i,
            ),
    ensures
        forall|c: int|
            0 <= c < walked_from(entries, workspace, state_root, i, walk).candidates.len()
                ==> was_found(
                #[trigger] walked_from(entries, workspace, state_root, i, walk).candidates[c],
                entries,
                workspace,
                state_root,
                entries.len() as int,
            ),
    decreases entries.len() - i,
{
    if i < entries.len() {
        let next = walk.after(entries[i], workspace, state_root);
        assert forall|c: int| 0 <= c < next.candidates.len() implies was_found(
            #[trigger] next.candidates[c],
            entries,
            workspace,
            state_root,
            i + 1,
        ) by {
            let candidate = next.candidates[c];
            if !(exists|d: int|
                0 <= d < walk.candidates.len() && #[trigger] walk.candidates[d] == candidate) {
                candidate_is_old_or_new(walk, entries[i], workspace, state_root, c);
                assert(entries[i] == (WalkEntryModel::Found {
                    path: candidate.disk_path,
                    exact: true,
                    kind: Some(EntryKind::File),
                }));
            } else {
                let d = choose|d: int|
                    0 <= d < walk.candidates.len() && #[trigger] walk.candidates[d] == candidate;
                assert(was_found(walk.candidates[d], entries, workspace, state_root, i));
            }
        }
        candidates_were_found_from(entries, workspace, state_root, i + 1, next);
        assert(walked_from(entries, workspace, state_root, i, walk) == walked_from(
            entries,
            workspace,
            state_root,
            i + 1,
            next,
        ));
    } else {
        assert(walked_from(entries, workspace, state_root, i, walk) == walk);
    }
}

proof fn candidate_is_old_or_new(
    walk: WalkModel,
    entry: WalkEntryModel,
    workspace: Seq<char>,
    state_root: Seq<char>,
    c: int,
)
    requires
        0 <= c < walk.after(entry, workspace, state_root).candidates.len(),
    ensures
        ({
            let candidate = walk.after(entry, workspace, state_root).candidates[c];
            ||| exists|d: int|
                0 <= d < walk.candidates.len() && #[trigger] walk.candidates[d] == candidate
            ||| entry == (WalkEntryModel::Found {
                path: candidate.disk_path,
                exact: true,
                kind: Some(EntryKind::File),
            }) && relative_path(candidate.disk_path, true, workspace) == Some(candidate.path)
                && !path::within(candidate.disk_path, state_root) && text::byte_len(candidate.path)
                <= MAX_PATH_BYTES
        }),
{
    let next = walk.after(entry, workspace, state_root);
    let candidate = next.candidates[c];
    if let WalkEntryModel::Found { path, exact, kind } = entry {
        if let Some(relative) = relative_path(path, exact, workspace) {
            let new = CandidateModel { path: relative, disk_path: path };
            let before = if walk.candidates.len() >= MAX_WALKED_FILES {
                walk.candidates.drop_last()
            } else {
                walk.candidates
            };
            if next.candidates == with_candidate(before, new) && candidate != new {
                place_is_within(before, relative, 0);
                let place = place_from(before, relative, 0);
                let d = if place < before.len() && before[place].path == relative || c < place {
                    c
                } else {
                    c - 1
                };
                assert(before[d] == candidate);
                assert(walk.candidates[d] == candidate);
            } else if candidate != new {
                assert(walk.candidates[c] == candidate);
            }
        } else {
            assert(walk.candidates[c] == candidate);
        }
    } else {
        assert(walk.candidates[c] == candidate);
    }
}

proof fn place_is_within(candidates: Seq<CandidateModel>, path: Seq<char>, i: int)
    requires
        0 <= i <= candidates.len(),
    ensures
        i <= place_from(candidates, path, i) <= candidates.len(),
    decreases candidates.len() - i,
{
    if i < candidates.len() {
        if text::before(candidates[i].path, path) {
            place_is_within(candidates, path, i + 1);
        }
    }
}

/// A walk takes in nothing but files: every candidate is a file that was met, lies at its path
/// below the workspace, and is not part of the private state. What is behind a link is never
/// one.
pub proof fn only_files_are_taken_in(
    entries: Seq<WalkEntryModel>,
    workspace: Seq<char>,
    state_root: Seq<char>,
    c: int,
)
    requires
        0 <= c < walked_from(entries, workspace, state_root, 0, new_walk()).candidates.len(),
    ensures
        was_found(
            walked_from(entries, workspace, state_root, 0, new_walk()).candidates[c],
            entries,
            workspace,
            state_root,
            entries.len() as int,
        ),
{
    candidates_were_found_from(entries, workspace, state_root, 0, new_walk());
}

/// What belongs to Git is never taken in: where a walk went into every directory on the way to
/// what it met, no part of the path of a candidate is a directory of Git.
pub proof fn git_is_left_out(
    entries: Seq<WalkEntryModel>,
    workspace: Seq<char>,
    state_root: Seq<char>,
    c: int,
)
    requires
        forall|k: int| 0 <= k < entries.len() ==> was_gone_into(#[trigger] entries[k], workspace),
        0 <= c < walked_from(entries, workspace, state_root, 0, new_walk()).candidates.len(),
    ensures
        leaves_git_out(walked_from(entries, workspace, state_root, 0, new_walk()).candidates[c].path),
{
    only_files_are_taken_in(entries, workspace, state_root, c);
    let candidate = walked_from(entries, workspace, state_root, 0, new_walk()).candidates[c];
    let k = choose|k: int|
        0 <= k < entries.len() && #[trigger] entries[k] == (WalkEntryModel::Found {
            path: candidate.disk_path,
            exact: true,
            kind: Some(EntryKind::File),
        });
    assert(was_gone_into(entries[k], workspace));
    let names = text::pieces(candidate.path, '/');
    assert forall|n: int| 0 <= n < names.len() implies text::lowered(#[trigger] names[n])
        != ".git"@ by {
        assert(goes_into((n + 1) as nat, names[n]));
    }
}

/// The fact with the given path, from `i` on.
pub open spec fn fact_from(files: Seq<FileFactModel>, path: Seq<char>, i: int) -> Option<
    FileFactModel,
>
    decreases files.len() - i,
{
    if i < 0 || i >= files.len() {
        None
    } else if files[i].path == path {
        Some(files[i])
    } else {
        fact_from(files, path, i + 1)
    }
}

/// The fact that an earlier index holds for a path.
pub open spec fn prior_fact(previous: Option<RepositoryMapIndexModel>, path: Seq<char>) -> Option<
    FileFactModel,
> {
    match previous {
        Some(index) => fact_from(index.files, path, 0),
        None => None,
    }
}

/// The paths of an index increase, each against all behind it.
proof fn paths_increase(files: Seq<FileFactModel>, i: int, j: int)
    requires
        repository_map::paths_increase_from(files, i),
        0 <= i < j < files.len(),
    ensures
        text::before(files[i].path, files[j].path),
    decreases j - i,
{
    if i + 1 < j {
        paths_increase(files, i + 1, j);
        text::before_is_transitive(files[i].path, files[i + 1].path, files[j].path);
    }
}

proof fn later_paths_increase(files: Seq<FileFactModel>, i: int, j: int)
    requires
        repository_map::paths_increase_from(files, i),
        0 <= i <= j <= files.len(),
    ensures
        repository_map::paths_increase_from(files, j),
    decreases j - i,
{
    if i < j {
        if i + 1 < files.len() {
            later_paths_increase(files, i + 1, j);
        }
    }
}

proof fn fact_is_at(files: Seq<FileFactModel>, path: Seq<char>, i: int, place: int)
    requires
        0 <= i <= place <= files.len(),
        forall|k: int| i <= k < place ==> (#[trigger] files[k]).path != path,
    ensures
        fact_from(files, path, i) == fact_from(files, path, place),
    decreases place - i,
{
    if i < place {
        fact_is_at(files, path, i + 1, place);
    }
}

fn find_fact<'a>(files: &'a Vec<FileFact>, path: &str) -> (r: Option<&'a FileFact>)
    requires
        repository_map::paths_increase_from(files.deep_view(), 0),
    ensures
        match r {
            Some(file) => fact_from(files.deep_view(), path@, 0) == Some(file.deep_view()),
            None => fact_from(files.deep_view(), path@, 0) is None,
        },
{
    let ghost all = files.deep_view();
    let mut low: usize = 0;
    let mut high: usize = files.len();
    while low < high
        invariant
            low <= high <= files@.len(),
            all == files.deep_view(),
            repository_map::paths_increase_from(all, 0),
            forall|k: int| 0 <= k < low ==> text::before((#[trigger] all[k]).path, path@),
            forall|k: int| high <= k < all.len() ==> text::before(path@, (#[trigger] all[k]).path),
        decreases high - low,
    {
        let middle: usize = low + (high - low) / 2;
        assert(all[middle as int] == files@[middle as int].deep_view());
        if text::same_text(files[middle].path.as_str(), path) {
            assert forall|k: int| 0 <= k < middle implies (#[trigger] all[k]).path != path@ by {
                later_paths_increase(all, 0, k);
                paths_increase(all, k, middle as int);
                text::before_is_total(all[k].path, path@);
            }
            proof {
                fact_is_at(all, path@, 0, middle as int);
            }
            return Some(&files[middle]);
        }
        if text::precedes(files[middle].path.as_str(), path) {
            assert forall|k: int| 0 <= k < middle + 1 implies text::before(
                (#[trigger] all[k]).path,
                path@,
            ) by {
                if k < middle {
                    later_paths_increase(all, 0, k);
                    paths_increase(all, k, middle as int);
                    text::before_is_transitive(all[k].path, all[middle as int].path, path@);
                }
            }
            low = middle + 1;
        } else {
            proof {
                text::before_is_total(all[middle as int].path, path@);
                later_paths_increase(all, 0, middle as int);
            }
            assert forall|k: int| middle <= k < all.len() implies text::before(
                path@,
                (#[trigger] all[k]).path,
            ) by {
                if k > middle {
                    paths_increase(all, middle as int, k);
                    text::before_is_transitive(path@, all[middle as int].path, all[k].path);
                }
            }
            high = middle;
        }
    }
    proof {
        assert forall|k: int| 0 <= k < all.len() implies (#[trigger] all[k]).path != path@ by {
            text::before_is_total(all[k].path, path@);
        }
        fact_is_at(all, path@, 0, all.len() as int);
    }
    None
}

/// What is known of a file that is too large.
pub open spec fn oversized_fact(path: Seq<char>, bytes: u64) -> FileFactModel {
    FileFactModel {
        path,
        sha256: None,
        bytes,
        language: repository_map::language_of(path),
        classification: repository_map::class_of(path),
        rust: if repository_map::language_of(path) == LanguageClass::Rust {
            RustParseStatusModel::Oversized
        } else {
            RustParseStatusModel::NotRust
        },
    }
}

/// What the bytes of a file show, where it is a Rust file. `events` is what a walk through its
/// syntax meets, where it has one.
pub open spec fn status_of(path: Seq<char>, raw: Seq<u8>, events: Seq<SyntaxEventModel>) ->
    RustParseStatusModel {
    if repository_map::language_of(path) != LanguageClass::Rust {
        RustParseStatusModel::NotRust
    } else if raw.len() > MAX_INDEXED_FILE_BYTES {
        RustParseStatusModel::Oversized
    } else if syntax::source_parses(raw) {
        RustParseStatusModel::Parsed { facts: syntax::facts_of(events) }
    } else {
        RustParseStatusModel::Malformed
    }
}

/// What is known of a file that was read.
pub open spec fn read_fact(
    path: Seq<char>,
    raw: Seq<u8>,
    events: Seq<SyntaxEventModel>,
) -> FileFactModel {
    FileFactModel {
        path,
        sha256: Some(digest::sha256_hex(raw)),
        bytes: raw.len() as u64,
        language: repository_map::language_of(path),
        classification: repository_map::class_of(path),
        rust: status_of(path, raw, events),
    }
}

/// An earlier fact still holds of bytes that were read.
pub open spec fn still_holds(prior: Option<FileFactModel>, raw: Seq<u8>) -> bool {
    prior matches Some(file) && file.sha256 == Some(digest::sha256_hex(raw)) && file.bytes
        == raw.len()
}

fn oversized_file(path: &str, bytes: u64) -> (r: FileFact)
    ensures
        r.deep_view() == oversized_fact(path@, bytes),
{
    let language = language_for(path);
    FileFact {
        path: text::copy(path),
        sha256: None,
        bytes,
        language,
        classification: classify_path(path),
        rust: if language == LanguageClass::Rust {
            RustParseStatus::Oversized
        } else {
            RustParseStatus::NotRust
        },
    }
}

/// What is known of a file that was read. `events` is what a walk through its syntax met, and
/// nothing where it has none.
pub fn parse_file(path: &str, raw: &[u8], events: &Vec<SyntaxEvent>) -> (r: FileFact)
    ensures
        r.deep_view() == read_fact(path@, raw@, events.deep_view()),
        r.deep_view().sha256 matches Some(digest) && digest.len() == 64,
{
    let language = language_for(path);
    let rust = if language != LanguageClass::Rust {
        RustParseStatus::NotRust
    } else if raw.len() as u64 > MAX_INDEXED_FILE_BYTES {
        RustParseStatus::Oversized
    } else {
        match syntax::parse_source(raw) {
            Some(_) => RustParseStatus::Parsed { facts: syntax::extract_rust_facts(events) },
            None => RustParseStatus::Malformed,
        }
    };
    FileFact {
        path: text::copy(path),
        sha256: Some(digest::sha256_text(raw)),
        bytes: raw.len() as u64,
        language,
        classification: classify_path(path),
        rust,
    }
}

/// A refresh of an index: what was known before, the files that the new index is about,
/// and the facts of the first of them.
#[derive(Debug, PartialEq, Eq)]
pub struct Refresh {
    pub previous: Option<RepositoryMapIndex>,
    pub candidates: Vec<Candidate>,
    pub files: Vec<FileFact>,
    pub omissions: OmissionCounts,
    pub reused_files: u64,
    pub reparsed_files: u64,
}

/// What a `Refresh` says.
pub struct RefreshModel {
    pub previous: Option<RepositoryMapIndexModel>,
    pub candidates: Seq<CandidateModel>,
    pub files: Seq<FileFactModel>,
    pub omissions: OmissionCountsModel,
    pub reused_files: nat,
    pub reparsed_files: nat,
}

impl DeepView for Refresh {
    type V = RefreshModel;

    open spec fn deep_view(&self) -> RefreshModel {
        RefreshModel {
            previous: self.previous.deep_view(),
            candidates: self.candidates.deep_view(),
            files: self.files.deep_view(),
            omissions: self.omissions.deep_view(),
            reused_files: self.reused_files as nat,
            reparsed_files: self.reparsed_files as nat,
        }
    }
}

/// What is learnt of the next file: that it is too large, or what is in it.
pub enum Reading {
    Oversized { bytes: u64 },
    Content { raw: Seq<u8>, events: Seq<SyntaxEventModel> },
}

/// Where the packages of the new index come from.
#[derive(Clone, Copy, Debug, PartialEq, Eq, Structural)]
pub enum CargoPlan {
    Unavailable,
    Collect,
    Reuse,
}

/// How many files hold Rust that could not be read.
pub open spec fn malformed_among(files: Seq<FileFactModel>) -> nat
    decreases files.len(),
{
    if files.len() == 0 {
        0
    } else {
        malformed_among(files.drop_last()) + (if files.last().rust is Malformed {
            1nat
        } else {
            0
        })
    }
}

impl RefreshModel {
    /// The path of the next file.
    pub open spec fn next_path(self) -> Seq<char> {
        self.candidates[self.files.len() as int].path
    }

    /// The refresh with a fact more, which is counted where it is about Rust that could not be
    /// read.
    pub open spec fn with_file(self, file: FileFactModel) -> RefreshModel {
        RefreshModel {
            files: self.files.push(file),
            omissions: OmissionCountsModel {
                malformed_rust: self.omissions.malformed_rust + if file.rust is Malformed {
                    1nat
                } else {
                    0
                },
                ..self.omissions
            },
            ..self
        }
    }

    pub open spec fn with_reused(self, file: FileFactModel) -> RefreshModel {
        RefreshModel { reused_files: self.reused_files + 1, ..self.with_file(file) }
    }

    pub open spec fn with_reparsed(self, file: FileFactModel) -> RefreshModel {
        RefreshModel { reparsed_files: self.reparsed_files + 1, ..self.with_file(file) }
    }

    /// The refresh with the next file, for what is learnt of it.
    pub open spec fn after(self, reading: Reading) -> RefreshModel {
        let path = self.next_path();
        let prior = prior_fact(self.previous, path);
        match reading {
            Reading::Oversized { bytes } => {
                let counted = RefreshModel {
                    omissions: OmissionCountsModel {
                        oversized_files: self.omissions.oversized_files + 1,
                        ..self.omissions
                    },
                    ..self
                };
                if prior matches Some(file) && file.sha256 is None && file.bytes == bytes {
                    counted.with_reused(prior->0)
                } else {
                    counted.with_reparsed(oversized_fact(path, bytes))
                }
            },
            Reading::Content { raw, events } => if still_holds(prior, raw) {
                self.with_reused(prior->0)
            } else {
                self.with_reparsed(read_fact(path, raw, events))
            },
        }
    }

    /// The refresh is under way: what was known before is a valid index, the counts follow
    /// from the files that are done, whether a fact was made or was known before.
    pub open spec fn is_valid(self) -> bool {
        &&& self.previous matches Some(index) ==> repository_map::valid_index(index)
        &&& candidates_increase(self.candidates)
        &&& self.candidates.len() <= MAX_WALKED_FILES
        &&& self.files.len() <= self.candidates.len()
        &&& self.reused_files + self.reparsed_files == self.files.len()
        &&& self.omissions.oversized_files <= self.files.len()
        &&& self.omissions.malformed_rust == malformed_among(self.files)
        &&& self.omissions.index_limit == 0
        &&& forall|i: int|
            0 <= i < self.files.len() ==> (#[trigger] self.files[i]).path
                == self.candidates[i].path
        &&& forall|i: int|
            0 <= i < self.files.len() && repository_map::safe_path(
                (#[trigger] self.files[i]).path,
            ) ==> repository_map::fact_is_valid(self.files[i])
    }

    /// Every file has a path that an index may hold.
    pub open spec fn paths_are_safe(self) -> bool {
        forall|i: int|
            0 <= i < self.candidates.len() ==> repository_map::safe_path(
                (#[trigger] self.candidates[i]).path,
            )
    }

    /// Where the packages of the new index come from.
    pub open spec fn cargo_plan(self) -> CargoPlan {
        let changed = match self.previous {
            Some(index) => !index.cargo.available || cargo::cargo_inputs_from(index.files, 0)
                != cargo::cargo_inputs_from(self.files, 0),
            None => true,
        };
        if !cargo::inputs_have_digests_from(self.files, 0) {
            CargoPlan::Unavailable
        } else if changed {
            CargoPlan::Collect
        } else {
            CargoPlan::Reuse
        }
    }

    /// The packages of the new index, for those that Cargo describes now.
    pub open spec fn cargo_facts(self, collected: CargoFactsModel) -> CargoFactsModel {
        match self.cargo_plan() {
            CargoPlan::Unavailable => cargo::cargo_facts_of(None),
            CargoPlan::Collect => collected,
            CargoPlan::Reuse => self.previous->0.cargo,
        }
    }

    /// The new index before it is bounded.
    pub open spec fn index(self, collected: CargoFactsModel) -> RepositoryMapIndexModel {
        repository_map::finalized(
            RepositoryMapIndexModel {
                schema: INDEX_SCHEMA@,
                files: self.files,
                cargo: self.cargo_facts(collected),
                omissions: self.omissions,
                completeness: Completeness::Complete,
            },
        )
    }

    /// What comes out of the refresh.
    pub open spec fn result(self, collected: CargoFactsModel) -> Result<
        RefreshResultModel,
        RepositoryMapErrorModel,
    > {
        match enforced(self.index(collected)) {
            Ok(index) => Ok(
                RefreshResultModel {
                    index,
                    reused_files: self.reused_files,
                    reparsed_files: self.reparsed_files,
                    deleted_files: match self.previous {
                        Some(previous) => deleted_from(previous.files, self.candidates, 0),
                        None => 0,
                    },
                },
            ),
            Err(error) => Err(error),
        }
    }
}

/// A path is among the candidates.
pub open spec fn is_candidate(candidates: Seq<CandidateModel>, path: Seq<char>) -> bool {
    exists|i: int| 0 <= i < candidates.len() && (#[trigger] candidates[i]).path == path
}

/// How many files from `i` on are no longer among the candidates.
pub open spec fn deleted_from(
    files: Seq<FileFactModel>,
    candidates: Seq<CandidateModel>,
    i: int,
) -> nat
    decreases files.len() - i,
{
    if i < 0 || i >= files.len() {
        0
    } else {
        (if is_candidate(candidates, files[i].path) {
            0nat
        } else {
            1
        }) + deleted_from(files, candidates, i + 1)
    }
}

/// The bytes of an index as JSON.
pub open spec fn index_bytes(index: RepositoryMapIndexModel) -> nat {
    text::byte_len(json::written(RepositoryMapIndex::json(index)))
}

/// An index cut off behind its first files; the others are counted.
pub open spec fn cut_off(index: RepositoryMapIndexModel, retained: int) -> RepositoryMapIndexModel {
    repository_map::finalized(
        RepositoryMapIndexModel {
            files: index.files.take(retained),
            omissions: OmissionCountsModel {
                index_limit: (index.omissions.index_limit + index.files.len() - retained) as nat,
                ..index.omissions
            },
            ..index
        },
    )
}

/// An index fits with its first files alone.
pub open spec fn fits_with(index: RepositoryMapIndexModel, retained: int) -> bool {
    index_bytes(cut_off(index, retained)) <= MAX_INDEX_BYTES
}

/// The largest number of files, `n` at most, with which an index fits.
pub open spec fn most_files(index: RepositoryMapIndexModel, n: int) -> Option<int>
    decreases n + 1,
{
    if n < 0 {
        None
    } else if fits_with(index, n) {
        Some(n)
    } else {
        most_files(index, n - 1)
    }
}

/// An index that fits: the index itself, or with as many of its first files as fit, or an error
/// where it does not fit without files either.
pub open spec fn enforced(index: RepositoryMapIndexModel) -> Result<
    RepositoryMapIndexModel,
    RepositoryMapErrorModel,
> {
    if index_bytes(index) <= MAX_INDEX_BYTES {
        Ok(index)
    } else {
        match most_files(index, index.files.len() as int) {
            Some(retained) => Ok(cut_off(index, retained)),
            None => Err(RepositoryMapErrorModel::IndexTooLarge),
        }
    }
}

fn cut(index: &RepositoryMapIndex, retained: usize) -> (r: RepositoryMapIndex)
    requires
        retained <= index.files@.len(),
        index.omissions.index_limit + index.files@.len() <= u64::MAX,
    ensures
        r.deep_view() == cut_off(index.deep_view(), retained as int),
{
    let mut omissions = index.omissions.duplicate();
    omissions.index_limit = omissions.index_limit + (index.files.len() - retained) as u64;
    let mut out = RepositoryMapIndex {
        schema: text::copy(index.schema.as_str()),
        files: list::duplicate_first(&index.files, retained),
        cargo: index.cargo.duplicate(),
        omissions,
        completeness: index.completeness,
    };
    finalize_completeness(&mut out);
    out
}

fn fits(index: &RepositoryMapIndex) -> (r: bool)
    ensures
        r == (index_bytes(index.deep_view()) <= MAX_INDEX_BYTES),
{
    let written = index.to_json().to_text();
    text::count_bytes(written.as_str()) <= MAX_INDEX_BYTES
}

proof fn longer_arrays_take_more(files: Seq<FileFactModel>, a: int, b: int)
    requires
        0 <= a <= b <= files.len(),
    ensures
        text::byte_len(json::written(json::item_array::<FileFact>(files.take(b))))
            >= text::byte_len(json::written(json::item_array::<FileFact>(files.take(a)))) + 17 * (b
            - a),
    decreases b - a,
{
    if a < b {
        longer_arrays_take_more(files, a, b - 1);
        let shorter = json::item_array::<FileFact>(files.take(b - 1))->Array_0;
        let last = FileFact::json(files[b - 1]);
        assert(json::item_array::<FileFact>(files.take(b))->Array_0 =~= shorter.push(last));
        json::arrays_grow(shorter, last);
        json::objects_take_bytes(last->Object_0);
    }
}

proof fn completeness_takes_bytes(completeness: Completeness)
    ensures
        text::byte_len(json::written(Completeness::json(completeness))) == match completeness {
            Completeness::Complete => 10,
            Completeness::Bounded => 9,
            Completeness::CargoUnavailable => 19,
            Completeness::BoundedAndCargoUnavailable => 31nat,
        },
{
    reveal_strlit("complete");
    reveal_strlit("bounded");
    reveal_strlit("cargo_unavailable");
    reveal_strlit("bounded_and_cargo_unavailable");
    json::plain_texts_take_bytes(completeness.label());
}

proof fn counts_grow_slowly(omissions: OmissionCountsModel, more: nat)
    ensures
        ({
            let grown = OmissionCountsModel {
                index_limit: omissions.index_limit + more,
                ..omissions
            };
            text::byte_len(json::written(OmissionCounts::json(grown))) <= text::byte_len(
                json::written(OmissionCounts::json(omissions)),
            ) + more
        }),
{
    let grown = OmissionCountsModel { index_limit: omissions.index_limit + more, ..omissions };
    text::decimals_grow_slowly(omissions.index_limit, more);
    let x = OmissionCounts::json(grown)->Object_0;
    let y = OmissionCounts::json(omissions)->Object_0;
    json::objects_differ_by_values(x, y);
    reveal_with_fuel(json::value_bytes_from, 9);
}

proof fn shorter_indexes_take_less(index: RepositoryMapIndexModel, a: int, b: int)
    requires
        0 <= a <= b <= index.files.len(),
    ensures
        index_bytes(cut_off(index, a)) <= index_bytes(cut_off(index, b)),
{
    let short = cut_off(index, a);
    let long = cut_off(index, b);
    completeness_takes_bytes(short.completeness);
    completeness_takes_bytes(long.completeness);
    longer_arrays_take_more(index.files, a, b);
    assert(short.omissions == OmissionCountsModel {
        index_limit: long.omissions.index_limit + (b - a) as nat,
        ..long.omissions
    });
    counts_grow_slowly(long.omissions, (b - a) as nat);
    let x = RepositoryMapIndex::json(short)->Object_0;
    let y = RepositoryMapIndex::json(long)->Object_0;
    json::objects_differ_by_values(x, y);
    assert(json::value_bytes_from(x, 0) <= json::value_bytes_from(y, 0)) by {
        reveal_with_fuel(json::value_bytes_from, 6);
    }
}

proof fn fewer_files_fit(index: RepositoryMapIndexModel, a: int, b: int)
    requires
        0 <= a <= b <= index.files.len(),
        fits_with(index, b),
    ensures
        fits_with(index, a),
{
    shorter_indexes_take_less(index, a, b);
}

proof fn most_files_are(index: RepositoryMapIndexModel, n: int, most: int)
    requires
        -1 <= most <= n,
        most >= 0 ==> fits_with(index, most),
        forall|k: int| most < k <= n ==> !#[trigger] fits_with(index, k),
    ensures
        most_files(index, n) == (if most >= 0 {
            Some(most)
        } else {
            None
        }),
    decreases n + 1,
{
    if most < n {
        assert(!fits_with(index, n));
        most_files_are(index, n - 1, most);
    }
}

/// Cuts files off an index that is too large.
pub fn enforce_index_bound(index: RepositoryMapIndex) -> (r: Result<
    RepositoryMapIndex,
    RepositoryMapError,
>)
    requires
        index.omissions.index_limit + index.files@.len() <= u64::MAX,
        index.files@.len() < usize::MAX,
    ensures
        match (r, enforced(index.deep_view())) {
            (Ok(index), Ok(i)) => index.deep_view() == i,
            (Err(error), Err(e)) => error.deep_view() == e,
            _ => false,
        },
{
    if fits(&index) {
        return Ok(index);
    }
    let ghost model = index.deep_view();
    let total: usize = index.files.len();
    assert(model.files.len() == total);
    let mut low: usize = 0;
    let mut high: usize = total + 1;
    let mut best: Option<usize> = None;
    while low < high
        invariant
            low <= high <= total + 1,
            total == index.files@.len(),
            model == index.deep_view(),
            model.files.len() == total,
            index.omissions.index_limit + index.files@.len() <= u64::MAX,
            match best {
                Some(retained) => retained + 1 == low && fits_with(model, retained as int),
                None => low == 0,
            },
            forall|k: int| high <= k <= total ==> !#[trigger] fits_with(model, k),
        decreases high - low,
    {
        let retained: usize = low + (high - low) / 2;
        if fits(&cut(&index, retained)) {
            best = Some(retained);
            low = retained + 1;
        } else {
            proof {
                assert forall|k: int| retained <= k <= total implies !#[trigger] fits_with(
                    model,
                    k,
                ) by {
                    if fits_with(model, k) {
                        fewer_files_fit(model, retained as int, k);
                    }
                }
            }
            high = retained;
        }
    }
    proof {
        most_files_are(model, total as int, low - 1);
    }
    match best {
        Some(retained) => Ok(cut(&index, retained)),
        None => Err(RepositoryMapError::IndexTooLarge),
    }
}

/// The text that is kept of an index.
pub fn persisted_text(index: &RepositoryMapIndex) -> (r: Result<String, RepositoryMapError>)
    ensures
        match r {
            Ok(written) => index_bytes(index.deep_view()) <= MAX_INDEX_BYTES && written@
                == json::written(RepositoryMapIndex::json(index.deep_view())),
            Err(error) => index_bytes(index.deep_view()) > MAX_INDEX_BYTES && error.deep_view()
                == RepositoryMapErrorModel::IndexTooLarge,
        },
{
    let written = index.to_json().to_text();
    if text::count_bytes(written.as_str()) > MAX_INDEX_BYTES {
        return Err(RepositoryMapError::IndexTooLarge);
    }
    Ok(written)
}

proof fn malformed_are_some(files: Seq<FileFactModel>)
    ensures
        malformed_among(files) <= files.len(),
    decreases files.len(),
{
    if files.len() > 0 {
        malformed_are_some(files.drop_last());
    }
}

proof fn one_more_is_counted(files: Seq<FileFactModel>, file: FileFactModel)
    ensures
        malformed_among(files.push(file)) == malformed_among(files) + (if file.rust is Malformed {
            1nat
        } else {
            0
        }),
{
    assert(files.push(file).drop_last() =~= files);
}

fn has_candidate(candidates: &Vec<Candidate>, path: &str) -> (r: bool)
    requires
        candidates_increase(candidates.deep_view()),
    ensures
        r == is_candidate(candidates.deep_view(), path@),
{
    let ghost all = candidates.deep_view();
    let place: usize = find_place(candidates, path);
    proof {
        place_splits(all, path@, 0);
        assert forall|k: int| 0 <= k < place implies (#[trigger] all[k]).path != path@ by {
            text::before_is_total(all[k].path, path@);
        }
    }
    if place < candidates.len() {
        assert(all[place as int] == candidates@[place as int].deep_view());
        if text::same_text(candidates[place].path.as_str(), path) {
            return true;
        }
        assert forall|k: int| place <= k < all.len() implies (#[trigger] all[k]).path != path@ by {
            if k > place {
                assert(text::before(all[place as int].path, all[k].path));
            }
        }
    }
    false
}

fn count_deleted(files: &Vec<FileFact>, candidates: &Vec<Candidate>) -> (r: u64)
    requires
        candidates_increase(candidates.deep_view()),
    ensures
        r == deleted_from(files.deep_view(), candidates.deep_view(), 0),
{
    let ghost all = files.deep_view();
    let ghost present = candidates.deep_view();
    let total: usize = files.len();
    let mut count: u64 = 0;
    let mut i: usize = 0;
    while i < total
        invariant
            i <= total,
            total == files@.len(),
            count <= i,
            all == files.deep_view(),
            present == candidates.deep_view(),
            candidates_increase(present),
            deleted_from(all, present, 0) == count + deleted_from(all, present, i as int),
        decreases total - i,
    {
        assert(all[i as int] == files@[i as int].deep_view());
        if !has_candidate(candidates, files[i].path.as_str()) {
            count += 1;
        }
        i += 1;
    }
    count
}

impl Refresh {
    /// Begins a refresh behind a walk.
    pub fn new(previous: Option<RepositoryMapIndex>, walk: Walk) -> (r: Refresh)
        requires
            previous.deep_view() matches Some(index) ==> repository_map::valid_index(index),
            walk.deep_view().is_valid(),
            walk.deep_view().counts_at_most(u64::MAX as int),
        ensures
            r.deep_view() == (RefreshModel {
                previous: previous.deep_view(),
                candidates: walk.deep_view().candidates,
                files: seq![],
                omissions: walk.deep_view().omissions,
                reused_files: 0,
                reparsed_files: 0,
            }),
            r.deep_view().is_valid(),
    {
        let files: Vec<FileFact> = Vec::new();
        assert(files.deep_view() =~= Seq::empty());
        Refresh {
            previous,
            candidates: walk.candidates,
            files,
            omissions: walk.omissions,
            reused_files: 0,
            reparsed_files: 0,
        }
    }

    /// Where the next file lies, as long as there is one.
    pub fn next_file(&self) -> (r: Option<String>)
        requires
            self.deep_view().is_valid(),
        ensures
            match r {
                Some(disk_path) => self.deep_view().files.len() < self.deep_view().candidates.len()
                    && disk_path@
                    == self.deep_view().candidates[self.deep_view().files.len() as int].disk_path,
                None => self.deep_view().files.len() == self.deep_view().candidates.len(),
            },
    {
        assert(self.files.deep_view().len() == self.files@.len());
        let done: usize = self.files.len();
        if done < self.candidates.len() {
            assert(self.candidates.deep_view()[done as int]
                == self.candidates@[done as int].deep_view());
            Some(text::copy(self.candidates[done].disk_path.as_str()))
        } else {
            None
        }
    }

    fn prior(&self, path: &str) -> (r: Option<&FileFact>)
        requires
            self.deep_view().is_valid(),
        ensures
            match r {
                Some(file) => prior_fact(self.deep_view().previous, path@) == Some(
                    file.deep_view(),
                ),
                None => prior_fact(self.deep_view().previous, path@) is None,
            },
    {
        match &self.previous {
            Some(index) => find_fact(&index.files, path),
            None => None,
        }
    }

    fn take_in(&mut self, file: FileFact)
        requires
            old(self).deep_view().files.len() < old(self).deep_view().candidates.len()
                <= MAX_WALKED_FILES,
            old(self).deep_view().omissions.malformed_rust == malformed_among(
                old(self).deep_view().files,
            ),
        ensures
            final(self).deep_view() == old(self).deep_view().with_file(file.deep_view()),
            final(self).deep_view().omissions.malformed_rust == malformed_among(
                final(self).deep_view().files,
            ),
    {
        proof {
            malformed_are_some(self.deep_view().files);
            one_more_is_counted(self.deep_view().files, file.deep_view());
        }
        if let RustParseStatus::Malformed = &file.rust {
            self.omissions.malformed_rust += 1;
        }
        list::push(&mut self.files, file);
    }

    fn next_candidate_path(&self) -> (r: String)
        requires
            self.deep_view().is_valid(),
            self.deep_view().files.len() < self.deep_view().candidates.len(),
        ensures
            r@ == self.deep_view().next_path(),
    {
        let done: usize = self.files.len();
        assert(self.candidates.deep_view()[done as int]
            == self.candidates@[done as int].deep_view());
        text::copy(self.candidates[done].path.as_str())
    }

    /// The bytes of the next file were counted. Says whether its content is wanted; where
    /// it is too large, the file is done.
    pub fn measured(&mut self, bytes: u64) -> (r: bool)
        requires
            old(self).deep_view().is_valid(),
            old(self).deep_view().files.len() < old(self).deep_view().candidates.len(),
        ensures
            r == (bytes <= MAX_INDEXED_FILE_BYTES),
            r ==> *final(self) == *old(self),
            !r ==> final(self).deep_view() == old(self).deep_view().after(
                Reading::Oversized { bytes },
            ),
            final(self).deep_view().is_valid(),
    {
        if bytes <= MAX_INDEXED_FILE_BYTES {
            return true;
        }
        let ghost before = self.deep_view();
        let path = self.next_candidate_path();
        let kept = match self.prior(path.as_str()) {
            Some(file) => if file.sha256.is_none() && file.bytes == bytes {
                Some(file.duplicate())
            } else {
                None
            },
            None => None,
        };
        proof {
            prior_is_valid(before.previous, path@);
        }
        self.omissions.oversized_files += 1;
        match kept {
            Some(file) => {
                self.take_in(file);
                self.reused_files += 1;
            },
            None => {
                self.take_in(oversized_file(path.as_str(), bytes));
                self.reparsed_files += 1;
            },
        }
        false
    }

    /// Whether the syntax of the next file is wanted, for the bytes in it: that of a Rust file
    /// that can be indexed and of which nothing is known yet.
    pub fn wants_syntax(&self, raw: &[u8]) -> (r: bool)
        requires
            self.deep_view().is_valid(),
            self.deep_view().files.len() < self.deep_view().candidates.len(),
        ensures
            r == (repository_map::language_of(self.deep_view().next_path()) == LanguageClass::Rust
                && raw@.len() <= MAX_INDEXED_FILE_BYTES && !still_holds(
                prior_fact(self.deep_view().previous, self.deep_view().next_path()),
                raw@,
            )),
    {
        let path = self.next_candidate_path();
        if language_for(path.as_str()) != LanguageClass::Rust || raw.len() as u64
            > MAX_INDEXED_FILE_BYTES {
            return false;
        }
        match self.prior(path.as_str()) {
            Some(file) => !holds_still(file, raw),
            None => true,
        }
    }

    /// Takes in the content of the next file. `events` is what a walk through its syntax met,
    /// and nothing where it has none or its syntax is not wanted.
    pub fn content(&mut self, raw: &[u8], events: &Vec<SyntaxEvent>) -> (r: Result<
        (),
        RepositoryMapError,
    >)
        requires
            old(self).deep_view().is_valid(),
            old(self).deep_view().files.len() < old(self).deep_view().candidates.len(),
        ensures
            final(self).deep_view().is_valid(),
            match r {
                Ok(_) => raw@.len() <= MAX_INDEXED_FILE_BYTES && final(self).deep_view() == old(
                    self,
                ).deep_view().after(Reading::Content { raw: raw@, events: events.deep_view() }),
                Err(error) => raw@.len() > MAX_INDEXED_FILE_BYTES && *final(self) == *old(self)
                    && error.deep_view() == RepositoryMapErrorModel::FileChangedDuringRefresh,
            },
    {
        if raw.len() as u64 > MAX_INDEXED_FILE_BYTES {
            return Err(RepositoryMapError::FileChangedDuringRefresh);
        }
        let ghost before = self.deep_view();
        let path = self.next_candidate_path();
        let kept = match self.prior(path.as_str()) {
            Some(file) => if holds_still(file, raw) {
                Some(file.duplicate())
            } else {
                None
            },
            None => None,
        };
        proof {
            prior_is_valid(before.previous, path@);
        }
        match kept {
            Some(file) => {
                self.take_in(file);
                self.reused_files += 1;
            },
            None => {
                let file = parse_file(path.as_str(), raw, events);
                proof {
                    digest::hex_holds_digits(digest::sha256(raw@));
                }
                self.take_in(file);
                self.reparsed_files += 1;
            },
        }
        Ok(())
    }

    /// Where the packages of the new index are to come from.
    pub fn cargo_plan(&self) -> (r: CargoPlan)
        ensures
            r == self.deep_view().cargo_plan(),
    {
        if !cargo::cargo_inputs_have_digests(&self.files) {
            return CargoPlan::Unavailable;
        }
        match &self.previous {
            Some(index) => {
                if !index.cargo.available || cargo::cargo_inputs_changed(
                    &index.files,
                    &self.files,
                ) {
                    CargoPlan::Collect
                } else {
                    CargoPlan::Reuse
                }
            },
            None => CargoPlan::Collect,
        }
    }

    /// Ends a refresh in which all files are done. `collected` are the packages that Cargo
    /// describes now, which count where they are to be collected.
    pub fn finish(self, collected: CargoFacts) -> (r: Result<RefreshResult, RepositoryMapError>)
        requires
            self.deep_view().is_valid(),
        ensures
            match (r, self.deep_view().result(collected.deep_view())) {
                (Ok(result), Ok(m)) => result.deep_view() == m,
                (Err(error), Err(e)) => error.deep_view() == e,
                _ => false,
            },
            self.deep_view().paths_are_safe() ==> (r matches Ok(result)
                ==> repository_map::accepted(Some(result.index.deep_view())) == Some(
                result.index.deep_view(),
            )),
    {
        proof {
            if self.deep_view().paths_are_safe() {
                refreshed_index_is_valid(self.deep_view(), collected.deep_view());
            }
        }
        let plan = self.cargo_plan();
        let deleted_files: u64 = match &self.previous {
            Some(index) => count_deleted(&index.files, &self.candidates),
            None => 0,
        };
        let none: Option<cargo::SourceWorkspace> = None;
        let facts = match plan {
            CargoPlan::Unavailable => cargo::collect_cargo_facts(&none),
            CargoPlan::Collect => collected,
            CargoPlan::Reuse => match &self.previous {
                Some(index) => index.cargo.duplicate(),
                None => collected,
            },
        };
        let mut index = RepositoryMapIndex {
            schema: text::copy(INDEX_SCHEMA),
            files: self.files,
            cargo: facts,
            omissions: self.omissions,
            completeness: Completeness::Complete,
        };
        finalize_completeness(&mut index);
        assert(index.files.deep_view().len() == index.files@.len());
        match enforce_index_bound(index) {
            Ok(index) => Ok(
                RefreshResult {
                    index,
                    reused_files: self.reused_files,
                    reparsed_files: self.reparsed_files,
                    deleted_files,
                },
            ),
            Err(error) => Err(error),
        }
    }
}

fn holds_still(file: &FileFact, raw: &[u8]) -> (r: bool)
    ensures
        r == still_holds(Some(file.deep_view()), raw@),
{
    let digest = digest::sha256_text(raw);
    match &file.sha256 {
        Some(known) => text::same_text(known.as_str(), digest.as_str()) && file.bytes
            == raw.len() as u64,
        None => false,
    }
}

proof fn fact_has_path(files: Seq<FileFactModel>, path: Seq<char>, i: int)
    ensures
        fact_from(files, path, i) matches Some(file) ==> file.path == path,
    decreases files.len() - i,
{
    if 0 <= i < files.len() {
        fact_has_path(files, path, i + 1);
    }
}

proof fn fact_is_valid_from(files: Seq<FileFactModel>, path: Seq<char>, i: int)
    requires
        forall|k: int|
            0 <= k < files.len() ==> repository_map::fact_is_valid(#[trigger] files[k]),
    ensures
        fact_from(files, path, i) matches Some(file) ==> repository_map::fact_is_valid(file),
    decreases files.len() - i,
{
    if 0 <= i < files.len() {
        fact_is_valid_from(files, path, i + 1);
    }
}

proof fn prior_is_valid(previous: Option<RepositoryMapIndexModel>, path: Seq<char>)
    requires
        previous matches Some(index) ==> repository_map::valid_index(index),
    ensures
        prior_fact(previous, path) matches Some(file) ==> file.path == path
            && repository_map::fact_is_valid(file),
{
    if let Some(index) = previous {
        fact_has_path(index.files, path, 0);
        fact_is_valid_from(index.files, path, 0);
    }
}

proof fn ordered_files_increase(
    files: Seq<FileFactModel>,
    candidates: Seq<CandidateModel>,
    i: int,
)
    requires
        0 <= i,
        files.len() <= candidates.len(),
        candidates_increase(candidates),
        forall|k: int|
            0 <= k < files.len() ==> (#[trigger] files[k]).path == candidates[k].path,
    ensures
        repository_map::paths_increase_from(files, i),
    decreases files.len() - i,
{
    if i + 1 < files.len() {
        assert(text::before(candidates[i].path, candidates[i + 1].path));
        assert(files[i].path == candidates[i].path);
        assert(files[i + 1].path == candidates[i + 1].path);
        ordered_files_increase(files, candidates, i + 1);
    }
}

proof fn most_files_fit(index: RepositoryMapIndexModel, n: int)
    ensures
        match most_files(index, n) {
            Some(most) => {
                &&& 0 <= most <= n
                &&& fits_with(index, most)
                &&& forall|k: int| most < k <= n ==> !#[trigger] fits_with(index, k)
            },
            None => forall|k: int| 0 <= k <= n ==> !#[trigger] fits_with(index, k),
        },
    decreases n + 1,
{
    if n >= 0 && !fits_with(index, n) {
        most_files_fit(index, n - 1);
    }
}

/// An index that was bounded fits; it holds the first files of the unbounded one, and
/// those that are gone are counted. No more of them would fit, and an index is refused only
/// where it does not fit without files either.
pub proof fn bounded_indexes_fit(index: RepositoryMapIndexModel)
    ensures
        index_bytes(index) <= MAX_INDEX_BYTES ==> enforced(index) == Ok::<
            RepositoryMapIndexModel,
            RepositoryMapErrorModel,
        >(index),
        index_bytes(index) > MAX_INDEX_BYTES ==> match enforced(index) {
            Ok(cut) => cut == cut_off(index, cut.files.len() as int) && forall|k: int|
                cut.files.len() < k <= index.files.len() ==> !#[trigger] fits_with(index, k),
            Err(error) => error == RepositoryMapErrorModel::IndexTooLarge && !fits_with(index, 0),
        },
        enforced(index) is Err <==> index_bytes(index) > MAX_INDEX_BYTES && !fits_with(index, 0),
        enforced(index) matches Ok(cut) ==> {
            &&& index_bytes(cut) <= MAX_INDEX_BYTES
            &&& cut.files.len() <= index.files.len()
            &&& cut.files == index.files.take(cut.files.len() as int)
            &&& cut.files.len() + cut.omissions.index_limit == index.files.len()
                + index.omissions.index_limit
            &&& cut.cargo == index.cargo
            &&& cut.files.len() < index.files.len() ==> cut.completeness == Completeness::Bounded
                || cut.completeness == Completeness::BoundedAndCargoUnavailable
        },
{
    let n = index.files.len() as int;
    most_files_fit(index, n);
    assert(index.files.take(n) =~= index.files);
    if index_bytes(index) > MAX_INDEX_BYTES {
        if let Some(most) = most_files(index, n) {
            fewer_files_fit(index, 0, most);
        }
    }
    if let Ok(cut) = enforced(index) {
        assert(cut.files =~= index.files.take(cut.files.len() as int));
    }
}

/// An index that a refresh gives is accepted as it is, where every path may stand in an index.
pub proof fn refreshed_index_is_valid(refresh: RefreshModel, collected: CargoFactsModel)
    requires
        refresh.is_valid(),
        refresh.paths_are_safe(),
    ensures
        refresh.result(collected) matches Ok(result) ==> repository_map::accepted(
            Some(result.index),
        ) == Some(result.index),
{
    let index = refresh.index(collected);
    bounded_indexes_fit(index);
    if let Ok(cut) = enforced(index) {
        assert forall|i: int| 0 <= i < cut.files.len() implies repository_map::fact_is_valid(
            #[trigger] cut.files[i],
        ) by {
            assert(cut.files[i] == refresh.files[i]);
            assert(refresh.candidates[i].path == refresh.files[i].path);
        }
        assert forall|k: int| 0 <= k < cut.files.len() implies (#[trigger] cut.files[k]).path
            == refresh.candidates[k].path by {
            assert(cut.files[k] == refresh.files[k]);
        }
        ordered_files_increase(cut.files, refresh.candidates, 0);
    }
}

/// The files of an index that a refresh gives increase strictly by their paths, and where the
/// walk before it left out what belongs to Git, so does the index.
pub proof fn refreshed_files_are_in_order(refresh: RefreshModel, collected: CargoFactsModel)
    requires
        refresh.is_valid(),
        forall|c: int|
            0 <= c < refresh.candidates.len() ==> leaves_git_out(
                (#[trigger] refresh.candidates[c]).path,
            ),
    ensures
        refresh.result(collected) matches Ok(result) ==> {
            &&& repository_map::paths_increase_from(result.index.files, 0)
            &&& forall|i: int|
                0 <= i < result.index.files.len() ==> leaves_git_out(
                    (#[trigger] result.index.files[i]).path,
                )
        },
{
    bounded_indexes_fit(refresh.index(collected));
    if let Ok(result) = refresh.result(collected) {
        let files = result.index.files;
        assert forall|k: int| 0 <= k < files.len() implies (#[trigger] files[k]).path
            == refresh.candidates[k].path by {
            assert(files[k] == refresh.files[k]);
        }
        assert forall|k: int| 0 <= k < files.len() implies leaves_git_out(
            (#[trigger] files[k]).path,
        ) by {
            assert(leaves_git_out(refresh.candidates[k].path));
        }
        ordered_files_increase(files, refresh.candidates, 0);
    }
}

/// The refresh behind the readings from `i` on.
pub open spec fn refreshed_from(refresh: RefreshModel, readings: Seq<Reading>, i: int) ->
    RefreshModel
    decreases readings.len() - i,
{
    if i < 0 || i >= readings.len() {
        refresh
    } else {
        refreshed_from(refresh.after(readings[i]), readings, i + 1)
    }
}

/// A fact agrees with what is learnt of the file.
pub open spec fn agrees(file: FileFactModel, reading: Reading) -> bool {
    match reading {
        Reading::Oversized { bytes } => file.sha256 is None && file.bytes == bytes,
        Reading::Content { raw, .. } => file.sha256 == Some(digest::sha256_hex(raw)) && file.bytes
            == raw.len(),
    }
}

proof fn readings_agree(refresh: RefreshModel, readings: Seq<Reading>, i: int)
    requires
        0 <= i <= readings.len(),
        refresh.files.len() == i,
        readings.len() == refresh.candidates.len(),
        forall|k: int| 0 <= k < i ==> agrees(#[trigger] refresh.files[k], readings[k]),
        forall|k: int|
            0 <= k < i ==> (#[trigger] refresh.files[k]).path == refresh.candidates[k].path,
        forall|k: int|
            0 <= k < readings.len() ==> ((#[trigger] readings[k]) matches Reading::Content {
                raw,
                ..
            } ==> raw.len() <= MAX_INDEXED_FILE_BYTES),
    ensures
        ({
            let done = refreshed_from(refresh, readings, i);
            &&& done.files.len() == readings.len()
            &&& done.candidates == refresh.candidates
            &&& forall|k: int|
                0 <= k < readings.len() ==> agrees(#[trigger] done.files[k], readings[k])
            &&& forall|k: int|
                0 <= k < readings.len() ==> (#[trigger] done.files[k]).path
                    == done.candidates[k].path
        }),
    decreases readings.len() - i,
{
    if i < readings.len() {
        let next = refresh.after(readings[i]);
        if let Some(index) = refresh.previous {
            fact_has_path(index.files, refresh.next_path(), 0);
        }
        assert forall|k: int| 0 <= k < i + 1 implies agrees(
            #[trigger] next.files[k],
            readings[k],
        ) by {
            if k < i {
                assert(next.files[k] == refresh.files[k]);
            }
        }
        assert forall|k: int| 0 <= k < i + 1 implies (#[trigger] next.files[k]).path
            == next.candidates[k].path by {
            if k < i {
                assert(next.files[k] == refresh.files[k]);
            }
        }
        readings_agree(next, readings, i + 1);
    }
}

proof fn reading_again_reuses(
    refresh: RefreshModel,
    readings: Seq<Reading>,
    known: Seq<FileFactModel>,
    i: int,
)
    requires
        0 <= i <= readings.len(),
        candidates_increase(refresh.candidates),
        readings.len() == refresh.candidates.len(),
        known.len() == readings.len(),
        refresh.previous matches Some(index) && index.files == known,
        forall|k: int| 0 <= k < readings.len() ==> agrees(#[trigger] known[k], readings[k]),
        forall|k: int|
            0 <= k < readings.len() ==> (#[trigger] known[k]).path == refresh.candidates[k].path,
        refresh.files == known.take(i),
    ensures
        ({
            let done = refreshed_from(refresh, readings, i);
            &&& done.files == known
            &&& done.reused_files == refresh.reused_files + readings.len() - i
            &&& done.reparsed_files == refresh.reparsed_files
        }),
    decreases readings.len() - i,
{
    if i < readings.len() {
        let path = refresh.next_path();
        assert(known[i].path == path);
        assert forall|k: int| 0 <= k < i implies (#[trigger] known[k]).path != path by {
            assert(text::before(refresh.candidates[k].path, refresh.candidates[i].path));
            text::before_is_total(known[k].path, path);
        }
        fact_is_at(known, path, 0, i);
        assert(prior_fact(refresh.previous, path) == Some(known[i]));
        assert(agrees(known[i], readings[i]));
        let next = refresh.after(readings[i]);
        assert(next.files =~= known.take(i + 1));
        reading_again_reuses(next, readings, known, i + 1);
    } else {
        assert(known.take(i) =~= known);
    }
}

/// Behind a refresh there is one fact for each file that was found, in order, and it is a fact
/// about what was read of that file: nothing of what was known before outlives a change.
pub proof fn facts_follow_what_is_read(refresh: RefreshModel, readings: Seq<Reading>)
    requires
        refresh.files.len() == 0,
        readings.len() == refresh.candidates.len(),
        forall|k: int|
            0 <= k < readings.len() ==> ((#[trigger] readings[k]) matches Reading::Content {
                raw,
                ..
            } ==> raw.len() <= MAX_INDEXED_FILE_BYTES),
    ensures
        ({
            let done = refreshed_from(refresh, readings, 0);
            &&& done.files.len() == refresh.candidates.len()
            &&& forall|k: int|
                0 <= k < done.files.len() ==> (#[trigger] done.files[k]).path
                    == refresh.candidates[k].path && agrees(done.files[k], readings[k])
        }),
{
    readings_agree(refresh, readings, 0);
}

/// A refresh that reads the same files again, with what was learnt before as what is known,
/// makes no fact anew and ends with the same facts.
pub proof fn unchanged_files_keep_their_facts(
    first: RefreshModel,
    readings: Seq<Reading>,
    second: RefreshModel,
)
    requires
        first.files.len() == 0,
        second.files.len() == 0,
        candidates_increase(first.candidates),
        second.candidates == first.candidates,
        readings.len() == first.candidates.len(),
        forall|k: int|
            0 <= k < readings.len() ==> ((#[trigger] readings[k]) matches Reading::Content {
                raw,
                ..
            } ==> raw.len() <= MAX_INDEXED_FILE_BYTES),
        second.previous matches Some(index) && index.files == refreshed_from(
            first,
            readings,
            0,
        ).files,
    ensures
        refreshed_from(second, readings, 0).files == refreshed_from(first, readings, 0).files,
        refreshed_from(second, readings, 0).reused_files == second.reused_files + readings.len(),
        refreshed_from(second, readings, 0).reparsed_files == second.reparsed_files,
{
    readings_agree(first, readings, 0);
    let known = refreshed_from(first, readings, 0).files;
    assert(second.files =~= known.take(0));
    reading_again_reuses(second, readings, known, 0);
}

/// Rust that could not be read is always marked: behind a refresh, every file with such Rust is
/// counted, whether it was read anew or known before, and where there is one the index is not
/// called complete.
pub proof fn damaged_files_are_marked(refresh: RefreshModel, collected: CargoFactsModel)
    requires
        refresh.is_valid(),
    ensures
        refresh.result(collected) matches Ok(result) ==> {
            &&& result.index.omissions.malformed_rust == malformed_among(refresh.files)
            &&& malformed_among(refresh.files) > 0 ==> result.index.completeness
                == Completeness::Bounded || result.index.completeness
                == Completeness::BoundedAndCargoUnavailable
        },
{
    bounded_indexes_fit(refresh.index(collected));
}

/// How many of the files from `i` on are too large.
pub open spec fn oversized_readings_from(readings: Seq<Reading>, i: int) -> nat
    decreases readings.len() - i,
{
    if i < 0 || i >= readings.len() {
        0
    } else {
        (if readings[i] is Oversized {
            1nat
        } else {
            0
        }) + oversized_readings_from(readings, i + 1)
    }
}

proof fn readings_are_counted(refresh: RefreshModel, readings: Seq<Reading>, i: int)
    requires
        0 <= i,
        refresh.omissions.malformed_rust == malformed_among(refresh.files),
    ensures
        ({
            let done = refreshed_from(refresh, readings, i);
            &&& done.omissions == OmissionCountsModel {
                oversized_files: refresh.omissions.oversized_files + oversized_readings_from(
                    readings,
                    i,
                ),
                malformed_rust: malformed_among(done.files),
                ..refresh.omissions
            }
            &&& done.previous == refresh.previous
            &&& done.candidates == refresh.candidates
        }),
    decreases readings.len() - i,
{
    if i < readings.len() {
        let next = refresh.after(readings[i]);
        one_more_is_counted(refresh.files, next.files.last());
        assert(next.files =~= refresh.files.push(next.files.last()));
        readings_are_counted(next, readings, i + 1);
    }
}

proof fn nothing_is_deleted(files: Seq<FileFactModel>, candidates: Seq<CandidateModel>, i: int)
    requires
        0 <= i,
        files.len() <= candidates.len(),
        forall|k: int|
            0 <= k < files.len() ==> (#[trigger] files[k]).path == candidates[k].path,
    ensures
        deleted_from(files, candidates, i) == 0,
    decreases files.len() - i,
{
    if i < files.len() {
        assert(files[i].path == candidates[i].path);
        nothing_is_deleted(files, candidates, i + 1);
    }
}

/// Refreshing again changes nothing: where the same files are found and read as before, with
/// the index of the first refresh as what is known, and that index did not have to be cut off,
/// the second refresh gives the same index, files, packages, omissions and completeness alike.
/// It reads nothing anew and finds nothing deleted.
pub proof fn refreshing_again_changes_nothing(
    first: RefreshModel,
    readings: Seq<Reading>,
    collected: CargoFactsModel,
    second: RefreshModel,
)
    requires
        first.is_valid(),
        first.files.len() == 0,
        second.candidates == first.candidates,
        second.files.len() == 0,
        second.omissions == first.omissions,
        second.reused_files == 0,
        second.reparsed_files == 0,
        readings.len() == first.candidates.len(),
        forall|k: int|
            0 <= k < readings.len() ==> ((#[trigger] readings[k]) matches Reading::Content {
                raw,
                ..
            } ==> raw.len() <= MAX_INDEXED_FILE_BYTES),
        refreshed_from(first, readings, 0).result(collected) matches Ok(result)
            && result.index.omissions.index_limit == 0 && second.previous == Some(result.index),
    ensures
        ({
            let before = refreshed_from(first, readings, 0).result(collected)->Ok_0;
            let again = refreshed_from(second, readings, 0).result(collected);
            &&& again matches Ok(result) && result == (RefreshResultModel {
                index: before.index,
                reused_files: before.index.files.len(),
                reparsed_files: 0,
                deleted_files: 0,
            })
            &&& repository_map::paths_increase_from(before.index.files, 0)
        }),
{
    let done = refreshed_from(first, readings, 0);
    let again = refreshed_from(second, readings, 0);
    let index = done.index(collected);
    readings_are_counted(first, readings, 0);
    readings_are_counted(second, readings, 0);
    readings_agree(first, readings, 0);
    bounded_indexes_fit(index);
    let kept = done.result(collected)->Ok_0.index;
    assert(kept.files.len() + kept.omissions.index_limit == index.files.len()
        + index.omissions.index_limit);
    assert(kept.files =~= done.files);
    assert(kept == index);
    unchanged_files_keep_their_facts(first, readings, second);
    assert(again.omissions == done.omissions);
    assert(again.cargo_facts(collected) == done.cargo_facts(collected));
    assert(again.index(collected) == index);
    nothing_is_deleted(kept.files, again.candidates, 0);
    ordered_files_increase(done.files, done.candidates, 0);
}

} // verus!
