//! What a walk and a refresh promise of the files that they met.

use vstd::prelude::*;
use crate::digest;
use crate::path;
use crate::repository_map::cargo::{cargo_inputs_from, inputs_have_digests_from};
use crate::repository_map::refreshing::{
    cut_off, deleted_from, enforced, fits_with, index_bytes, is_candidate, most_files, new_walk,
    place_from, refreshed_from, relative_path, walked_from, with_candidate, CandidateModel,
    CargoPlan, EntryKind, Reading, RefreshModel, WalkEntryModel, WalkModel,
};
use crate::repository_map::syntax;
use crate::repository_map::{
    class_of, language_of, FileFactModel, LanguageClass, RepositoryMapIndexModel,
    RustParseStatusModel,
};
use crate::text;

verus! {

broadcast use vstd::string::group_string_axioms;

spec fn has_path(candidates: Seq<CandidateModel>, path: Seq<char>) -> bool {
    exists|k: int| 0 <= k < candidates.len() && (#[trigger] candidates[k]).path == path
}

proof fn places_are_within(candidates: Seq<CandidateModel>, path: Seq<char>, i: int)
    requires
        0 <= i <= candidates.len(),
    ensures
        i <= place_from(candidates, path, i) <= candidates.len(),
    decreases candidates.len() - i,
{
    if i < candidates.len() && text::before(candidates[i].path, path) {
        places_are_within(candidates, path, i + 1);
    }
}

proof fn candidates_stay(
    candidates: Seq<CandidateModel>,
    candidate: CandidateModel,
    path: Seq<char>,
)
    ensures
        has_path(with_candidate(candidates, candidate), candidate.path),
        has_path(candidates, path) ==> has_path(with_candidate(candidates, candidate), path),
{
    let n = place_from(candidates, candidate.path, 0);
    places_are_within(candidates, candidate.path, 0);
    let next = with_candidate(candidates, candidate);
    assert(next[n].path == candidate.path);
    if has_path(candidates, path) {
        let k = choose|k: int| 0 <= k < candidates.len() && (#[trigger] candidates[k]).path == path;
        if n < candidates.len() && candidates[n].path == candidate.path {
            if k != n {
                assert(next[k].path == path);
            }
        } else if k < n {
            assert(next[k].path == path);
        } else {
            assert(next[k + 1].path == path);
        }
    }
}

/// An entry that is a file to be taken in, at a path below the workspace.
pub open spec fn is_file_at(
    entry: WalkEntryModel,
    workspace: Seq<char>,
    state_root: Seq<char>,
    relative: Seq<char>,
) -> bool {
    entry matches WalkEntryModel::Found { path, exact, kind } && kind == Some(EntryKind::File)
        && relative_path(path, exact, workspace) == Some(relative) && !path::alike(path, workspace)
        && !path::within(path, state_root) && text::byte_len(relative) <= 4_096
}

proof fn limits_only_grow(
    entries: Seq<WalkEntryModel>,
    workspace: Seq<char>,
    state_root: Seq<char>,
    i: int,
    walk: WalkModel,
)
    ensures
        walk.omissions.walked_limit <= walked_from(
            entries,
            workspace,
            state_root,
            i,
            walk,
        ).omissions.walked_limit,
    decreases entries.len() - i,
{
    if 0 <= i < entries.len() {
        limits_only_grow(
            entries,
            workspace,
            state_root,
            i + 1,
            walk.after(entries[i], workspace, state_root),
        );
    }
}

proof fn files_stay_from(
    entries: Seq<WalkEntryModel>,
    workspace: Seq<char>,
    state_root: Seq<char>,
    i: int,
    walk: WalkModel,
    relative: Seq<char>,
)
    requires
        0 <= i,
        has_path(walk.candidates, relative) || exists|k: int|
            i <= k < entries.len() && is_file_at(
                #[trigger] entries[k],
                workspace,
                state_root,
                relative,
            ),
        walked_from(entries, workspace, state_root, i, walk).omissions.walked_limit == 0,
    ensures
        has_path(walked_from(entries, workspace, state_root, i, walk).candidates, relative),
    decreases entries.len() - i,
{
    if i < entries.len() {
        let entry = entries[i];
        let next = walk.after(entry, workspace, state_root);
        limits_only_grow(entries, workspace, state_root, i + 1, next);
        limits_only_grow(entries, workspace, state_root, i, walk);
        match entry {
            WalkEntryModel::Found { path: found, exact, kind } => {
                if relative_path(found, exact, workspace) is Some {
                    let own = relative_path(found, exact, workspace)->0;
                    let candidate = CandidateModel { path: own, disk_path: found };
                    candidates_stay(walk.candidates, candidate, relative);
                }
            },
            _ => {},
        }
        if is_file_at(entry, workspace, state_root, relative) {
            let candidate = CandidateModel { path: relative, disk_path: entry->path };
            candidates_stay(walk.candidates, candidate, relative);
            assert(has_path(next.candidates, relative));
        }
        if !has_path(next.candidates, relative) {
            let k = choose|k: int|
                i <= k < entries.len() && is_file_at(
                    #[trigger] entries[k],
                    workspace,
                    state_root,
                    relative,
                );
            assert(i + 1 <= k);
        }
        files_stay_from(entries, workspace, state_root, i + 1, next, relative);
    }
}

/// Every file that is met below the workspace is taken in, at its path, as long as there was
/// room for all of them: but for the private state and for paths that are too long.
pub proof fn every_file_is_taken_in(
    entries: Seq<WalkEntryModel>,
    workspace: Seq<char>,
    state_root: Seq<char>,
    k: int,
    relative: Seq<char>,
)
    requires
        0 <= k < entries.len(),
        is_file_at(entries[k], workspace, state_root, relative),
        walked_from(entries, workspace, state_root, 0, new_walk()).omissions.walked_limit == 0,
    ensures
        exists|c: int|
            0 <= c < walked_from(
                entries,
                workspace,
                state_root,
                0,
                new_walk(),
            ).candidates.len() && (#[trigger] walked_from(
                entries,
                workspace,
                state_root,
                0,
                new_walk(),
            ).candidates[c]).path == relative,
{
    files_stay_from(entries, workspace, state_root, 0, new_walk(), relative);
}

/// An entry that was met outside the private state, and is not the workspace itself.
pub open spec fn is_met(
    entry: WalkEntryModel,
    workspace: Seq<char>,
    state_root: Seq<char>,
    kind: EntryKind,
) -> bool {
    entry matches WalkEntryModel::Found { path, kind: own, .. } && own == Some(kind)
        && !path::alike(path, workspace) && !path::within(path, state_root)
}

proof fn one_more_kept<A>(items: Seq<A>, i: int, keep: spec_fn(A) -> bool)
    requires
        0 <= i < items.len(),
    ensures
        items.take(i + 1).filter(keep).len() == items.take(i).filter(keep).len() + if keep(
            items[i],
        ) {
            1nat
        } else {
            0nat
        },
{
    reveal(Seq::filter);
    assert(items.take(i + 1).drop_last() =~= items.take(i));
}

proof fn omissions_are_counted_from(
    entries: Seq<WalkEntryModel>,
    workspace: Seq<char>,
    state_root: Seq<char>,
    i: int,
    walk: WalkModel,
)
    requires
        0 <= i <= entries.len(),
        walk.omissions.walk_errors == entries.take(i).filter(
            |e: WalkEntryModel| e is Failed,
        ).len(),
        walk.omissions.symlinks == entries.take(i).filter(
            |e: WalkEntryModel| is_met(e, workspace, state_root, EntryKind::Symlink),
        ).len(),
    ensures
        ({
            let end = walked_from(entries, workspace, state_root, i, walk);
            &&& end.omissions.walk_errors == entries.filter(|e: WalkEntryModel| e is Failed).len()
            &&& end.omissions.symlinks == entries.filter(
                |e: WalkEntryModel| is_met(e, workspace, state_root, EntryKind::Symlink),
            ).len()
        }),
    decreases entries.len() - i,
{
    if i < entries.len() {
        one_more_kept(entries, i, |e: WalkEntryModel| e is Failed);
        one_more_kept(
            entries,
            i,
            |e: WalkEntryModel| is_met(e, workspace, state_root, EntryKind::Symlink),
        );
        omissions_are_counted_from(
            entries,
            workspace,
            state_root,
            i + 1,
            walk.after(entries[i], workspace, state_root),
        );
    } else {
        assert(entries.take(i) =~= entries);
    }
}

/// A walk counts the entries that could not be looked at, and the links that it did not follow.
pub proof fn omissions_are_counted(
    entries: Seq<WalkEntryModel>,
    workspace: Seq<char>,
    state_root: Seq<char>,
)
    ensures
        ({
            let end = walked_from(entries, workspace, state_root, 0, new_walk());
            &&& end.omissions.walk_errors == entries.filter(|e: WalkEntryModel| e is Failed).len()
            &&& end.omissions.symlinks == entries.filter(
                |e: WalkEntryModel| is_met(e, workspace, state_root, EntryKind::Symlink),
            ).len()
        }),
{
    let none = entries.take(0);
    assert(none.filter(|e: WalkEntryModel| e is Failed) =~= seq![] && none.filter(
        |e: WalkEntryModel| is_met(e, workspace, state_root, EntryKind::Symlink),
    ) =~= seq![]) by {
        reveal(Seq::filter);
    }
    omissions_are_counted_from(entries, workspace, state_root, 0, new_walk());
}

/// What is known of a file that is read for the first time.
pub open spec fn first_fact(file: FileFactModel, path: Seq<char>, reading: Reading) -> bool {
    &&& file.path == path
    &&& file.language == language_of(path)
    &&& file.classification == class_of(path)
    &&& language_of(path) != LanguageClass::Rust ==> file.rust is NotRust
    &&& match reading {
        Reading::Oversized { bytes } => file.sha256 is None && file.bytes == bytes && (language_of(
            path,
        ) == LanguageClass::Rust ==> file.rust is Oversized),
        Reading::Content { raw, events } => file.sha256 == Some(digest::sha256_hex(raw)) && (
        language_of(path) == LanguageClass::Rust && raw.len() <= 1_048_576 ==> if syntax::source_parses(
            raw,
        ) {
            file.rust == (RustParseStatusModel::Parsed { facts: syntax::facts_of(events) })
        } else {
            file.rust is Malformed
        }),
    }
}

proof fn first_facts_from(refresh: RefreshModel, readings: Seq<Reading>, i: int)
    requires
        0 <= i <= readings.len(),
        refresh.previous is None,
        refresh.files.len() == i,
        readings.len() == refresh.candidates.len(),
        forall|k: int|
            0 <= k < i ==> first_fact(
                #[trigger] refresh.files[k],
                refresh.candidates[k].path,
                readings[k],
            ),
        refresh.reused_files == 0,
        refresh.reparsed_files == i,
    ensures
        ({
            let done = refreshed_from(refresh, readings, i);
            &&& done.files.len() == readings.len()
            &&& done.candidates == refresh.candidates
            &&& forall|k: int|
                0 <= k < readings.len() ==> first_fact(
                    #[trigger] done.files[k],
                    refresh.candidates[k].path,
                    readings[k],
                )
            &&& done.reused_files == 0
            &&& done.reparsed_files == readings.len()
        }),
    decreases readings.len() - i,
{
    if i < readings.len() {
        let next = refresh.after(readings[i]);
        assert forall|k: int| 0 <= k < i + 1 implies first_fact(
            #[trigger] next.files[k],
            refresh.candidates[k].path,
            readings[k],
        ) by {
            if k < i {
                assert(next.files[k] == refresh.files[k]);
            }
        }
        first_facts_from(next, readings, i + 1);
    }
}

/// A refresh without anything known before makes a fact for every file: with its digest, its
/// language, its class and, where it is Rust that can be parsed, what its syntax shows; Rust that
/// cannot be parsed or is too large is marked as that. Every fact counts as made anew.
pub proof fn first_refreshes_make_every_fact(refresh: RefreshModel, readings: Seq<Reading>)
    requires
        refresh.previous is None,
        refresh.files.len() == 0,
        refresh.reused_files == 0,
        refresh.reparsed_files == 0,
        readings.len() == refresh.candidates.len(),
    ensures
        ({
            let done = refreshed_from(refresh, readings, 0);
            &&& done.files.len() == readings.len()
            &&& forall|k: int|
                0 <= k < readings.len() ==> first_fact(
                    #[trigger] done.files[k],
                    refresh.candidates[k].path,
                    readings[k],
                )
            &&& done.reused_files == 0
            &&& done.reparsed_files == readings.len()
        }),
{
    first_facts_from(refresh, readings, 0);
}

proof fn deletions_are_counted_from(
    files: Seq<FileFactModel>,
    candidates: Seq<CandidateModel>,
    i: int,
)
    requires
        0 <= i <= files.len(),
    ensures
        deleted_from(files, candidates, i) + files.take(i).filter(
            |file: FileFactModel| !is_candidate(candidates, file.path),
        ).len() == files.filter(|file: FileFactModel| !is_candidate(candidates, file.path)).len(),
    decreases files.len() - i,
{
    if i < files.len() {
        one_more_kept(files, i, |file: FileFactModel| !is_candidate(candidates, file.path));
        deletions_are_counted_from(files, candidates, i + 1);
    } else {
        assert(files.take(i) =~= files);
    }
}

/// The files that were known before and are no longer met are counted as deleted.
pub proof fn deletions_are_counted(files: Seq<FileFactModel>, candidates: Seq<CandidateModel>)
    ensures
        deleted_from(files, candidates, 0) == files.filter(
            |file: FileFactModel| !is_candidate(candidates, file.path),
        ).len(),
{
    assert(files.take(0).filter(|file: FileFactModel| !is_candidate(candidates, file.path))
        =~= seq![]) by {
        reveal(Seq::filter);
    }
    deletions_are_counted_from(files, candidates, 0);
}

/// A file that says something of the packages.
pub open spec fn is_cargo_file(path: Seq<char>) -> bool {
    text::base_name(path) == "Cargo.toml"@ || text::base_name(path) == "Cargo.lock"@
}

proof fn cargo_files_are_kept_from(files: Seq<FileFactModel>, i: int)
    requires
        0 <= i <= files.len(),
    ensures
        files.take(i).filter(|file: FileFactModel| is_cargo_file(file.path)).map_values(
            |file: FileFactModel| (file.path, file.sha256),
        ) + cargo_inputs_from(files, i) == files.filter(
            |file: FileFactModel| is_cargo_file(file.path),
        ).map_values(|file: FileFactModel| (file.path, file.sha256)),
        inputs_have_digests_from(files, i) <==> forall|k: int|
            i <= k < files.len() && is_cargo_file((#[trigger] files[k]).path) ==> files[k].sha256
                is Some,
    decreases files.len() - i,
{
    let keep = |file: FileFactModel| is_cargo_file(file.path);
    let show = |file: FileFactModel| (file.path, file.sha256);
    if i < files.len() {
        cargo_files_are_kept_from(files, i + 1);
        reveal(Seq::filter);
        assert(files.take(i + 1).drop_last() =~= files.take(i));
        let before = files.take(i).filter(keep).map_values(show);
        let after = files.take(i + 1).filter(keep).map_values(show);
        if is_cargo_file(files[i].path) {
            assert(after =~= before.push((files[i].path, files[i].sha256)));
        } else {
            assert(after =~= before);
        }
        assert(before + cargo_inputs_from(files, i) =~= after + cargo_inputs_from(files, i + 1));
    } else {
        assert(files.take(i) =~= files);
        assert(files.filter(keep).map_values(show) + cargo_inputs_from(files, i) =~= files.filter(
            keep,
        ).map_values(show));
    }
}

/// The manifests and the locks among the files, each with its digest.
pub open spec fn cargo_files(files: Seq<FileFactModel>) -> Seq<(Seq<char>, Option<Seq<char>>)> {
    files.filter(|file: FileFactModel| is_cargo_file(file.path)).map_values(
        |file: FileFactModel| (file.path, file.sha256),
    )
}

/// The packages are looked at anew exactly where nothing was known of them, or where a manifest
/// or a lock came, went or changed; where one of these was too large, they are unknown.
pub proof fn packages_are_collected_when_they_change(refresh: RefreshModel)
    ensures
        ({
            let known = forall|k: int|
                0 <= k < refresh.files.len() && is_cargo_file((#[trigger] refresh.files[k]).path)
                    ==> refresh.files[k].sha256 is Some;
            let same = refresh.previous is Some && refresh.previous->0.cargo.available
                && cargo_files(refresh.previous->0.files) == cargo_files(refresh.files);
            &&& refresh.cargo_plan() == CargoPlan::Unavailable <==> !known
            &&& refresh.cargo_plan() == CargoPlan::Reuse <==> known && same
            &&& refresh.cargo_plan() == CargoPlan::Collect <==> known && !same
        }),
{
    cargo_inputs_are_files(refresh.files);
    if refresh.previous is Some {
        cargo_inputs_are_files(refresh.previous->0.files);
    }
}

proof fn cargo_inputs_are_files(files: Seq<FileFactModel>)
    ensures
        cargo_inputs_from(files, 0) == cargo_files(files),
        inputs_have_digests_from(files, 0) <==> forall|k: int|
            0 <= k < files.len() && is_cargo_file((#[trigger] files[k]).path) ==> files[k].sha256
                is Some,
{
    cargo_files_are_kept_from(files, 0);
    let none = files.take(0).filter(|file: FileFactModel| is_cargo_file(file.path)).map_values(
        |file: FileFactModel| (file.path, file.sha256),
    );
    assert(none =~= seq![]) by {
        reveal(Seq::filter);
    }
    assert(none + cargo_inputs_from(files, 0) =~= cargo_inputs_from(files, 0));
}

proof fn most_are_kept_from(index: RepositoryMapIndexModel, n: int)
    ensures
        match most_files(index, n) {
            Some(k) => 0 <= k <= n && fits_with(index, k) && forall|m: int|
                k < m <= n ==> !(#[trigger] fits_with(index, m)),
            None => forall|m: int| 0 <= m <= n ==> !(#[trigger] fits_with(index, m)),
        },
    decreases n + 1,
{
    if n >= 0 && !fits_with(index, n) {
        most_are_kept_from(index, n - 1);
    }
}

/// An index that is within the bound is kept as it is. A larger one keeps its first files, as
/// many as fit, and counts the others as left out; it is refused only where not even none fits.
pub proof fn large_indexes_keep_their_first_files(index: RepositoryMapIndexModel)
    ensures
        index_bytes(index) <= 134_217_728 ==> enforced(index) == Ok::<
            RepositoryMapIndexModel,
            crate::repository_map::RepositoryMapErrorModel,
        >(index),
        index_bytes(index) > 134_217_728 ==> match enforced(index) {
            Ok(kept) => exists|n: int|
                0 <= n <= index.files.len() && #[trigger] fits_with(index, n) && kept.files
                    == index.files.take(n) && kept.cargo == index.cargo
                    && kept.omissions.index_limit == index.omissions.index_limit
                    + index.files.len() - n && forall|m: int|
                    n < m <= index.files.len() ==> !(#[trigger] fits_with(index, m)),
            Err(_) => forall|m: int|
                0 <= m <= index.files.len() ==> !(#[trigger] fits_with(index, m)),
        },
{
    most_are_kept_from(index, index.files.len() as int);
    if index_bytes(index) > 134_217_728 && enforced(index) is Ok {
        let n = most_files(index, index.files.len() as int)->0;
        assert(fits_with(index, n));
        assert(cut_off(index, n).files == index.files.take(n));
    }
}

} // verus!
