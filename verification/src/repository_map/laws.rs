//! What the map of a repository promises of its files and its packages.

use vstd::prelude::*;
use crate::ranked;
use crate::repository_map::cargo::{
    all_edges_from, cargo_facts_of, edges_of, member_packages_from, package_of,
    packages_of, target_of, SourcePackageModel, SourceWorkspaceModel,
};
use crate::repository_map::projection::{
    bounded, counted, inventory_of, path_count, shrunk, shrunk_is_lighter, visible_from,
    weight, with_file, with_files_from, without_paths,
};
use crate::repository_map::state::{named_git_dir, request_id};
use crate::repository_map::{
    accepted, class_of, completeness_of, hidden, hidden_from, language_of, nameless_from,
    paths_increase_from, safe_path,
    CargoDependencyEdge, CargoDependencyEdgeModel, CargoPackage, CargoPackageModel, CargoTarget,
    Completeness, FileClassification, FileFactModel, LanguageClass, OmissionCountsModel,
    RepositoryInventoryModel, RepositoryMapIndexModel,
};
use crate::path;
use crate::text;

verus! {

broadcast use vstd::string::group_string_axioms;

proof fn finishes_there(stem: Seq<char>, end: Seq<char>)
    ensures
        text::finishes(stem + end, end),
{
    let s = stem + end;
    assert(s.subrange(s.len() - end.len(), s.len() as int) =~= end);
}

proof fn finishes_otherwise(s: Seq<char>, end: Seq<char>)
    requires
        s.len() > 0,
        end.len() > 0,
        s.last() != end.last(),
    ensures
        !text::finishes(s, end),
{
    if text::finishes(s, end) {
        assert(s.subrange(s.len() - end.len(), s.len() as int).last() == s.last());
    }
}

/// The end of its path tells the language of a file.
pub proof fn languages_are_told_by_their_ends(stem: Seq<char>)
    ensures
        language_of(stem + ".rs"@) == LanguageClass::Rust,
        language_of(stem + ".toml"@) == LanguageClass::Toml,
        language_of(stem + ".md"@) == LanguageClass::Text,
        language_of(stem + ".txt"@) == LanguageClass::Text,
        language_of(stem + ".rst"@) == LanguageClass::Text,
        language_of(stem + ".py"@) == LanguageClass::Other,
{
    reveal_strlit(".rs");
    reveal_strlit(".toml");
    reveal_strlit(".md");
    reveal_strlit(".txt");
    reveal_strlit(".rst");
    reveal_strlit(".py");
    finishes_there(stem, ".rs"@);
    finishes_there(stem, ".toml"@);
    finishes_there(stem, ".md"@);
    finishes_there(stem, ".txt"@);
    finishes_there(stem, ".rst"@);
    finishes_otherwise(stem + ".toml"@, ".rs"@);
    finishes_otherwise(stem + ".md"@, ".rs"@);
    finishes_otherwise(stem + ".md"@, ".toml"@);
    finishes_otherwise(stem + ".txt"@, ".rs"@);
    finishes_otherwise(stem + ".txt"@, ".toml"@);
    finishes_otherwise(stem + ".rst"@, ".rs"@);
    finishes_otherwise(stem + ".rst"@, ".toml"@);
    finishes_otherwise(stem + ".py"@, ".rs"@);
    finishes_otherwise(stem + ".py"@, ".toml"@);
    finishes_otherwise(stem + ".py"@, ".md"@);
    finishes_otherwise(stem + ".py"@, ".txt"@);
    finishes_otherwise(stem + ".py"@, ".rst"@);
}

proof fn names_are_behind_directories(directory: Seq<char>, name: Seq<char>)
    requires
        !name.contains('/'),
    ensures
        text::base_name(directory + seq!['/'] + name) == name,
{
    let s = directory + seq!['/'] + name;
    text::laws::last_pieces_are_cut(directory, name, '/');
    assert(text::cut_last(s, seq!['/']) == Some((directory, name)));
}

/// A file below a directory is a manifest by its name, in capital or small letters; else a test
/// by its place below a directory of tests or by the end of its name; else a configuration by
/// its name; else a source where it is one of Rust; and else something other.
pub proof fn files_are_classified(directory: Seq<char>, name: Seq<char>)
    requires
        !name.contains('/'),
    ensures
        ({
            let path = directory + seq!['/'] + name;
            let class = class_of(path);
            let manifest = text::lowered(name) == "cargo.toml"@;
            let test = text::begins(path, "tests/"@) || text::has(path, "/tests/"@)
                || text::finishes(name, "_test.rs"@);
            let configures = name == "Cargo.lock"@ || name == ".gitignore"@ || name
                == "rust-toolchain"@ || name == "rust-toolchain.toml"@;
            &&& manifest ==> class == FileClassification::Manifest
            &&& !manifest && test ==> class == FileClassification::Test
            &&& !manifest && !test && configures ==> class == FileClassification::Configuration
            &&& !manifest && !test && !configures && text::finishes(path, ".rs"@) ==> class
                == FileClassification::Source
            &&& !manifest && !test && !configures && !text::finishes(path, ".rs"@) ==> class
                == FileClassification::Other
        }),
{
    reveal_strlit(".cargo/config.toml");
    names_are_behind_directories(directory, name);
    if name == ".cargo/config.toml"@ {
        assert(name[6] == '/');
        assert(name.contains('/'));
    }
}

proof fn hidden_parts_are_found(parts: Seq<Seq<char>>, i: int)
    requires
        0 <= i,
    ensures
        hidden_from(parts, i) <==> exists|k: int|
            i <= k < parts.len() && (#[trigger] parts[k]).len() > 0 && parts[k][0] == '.',
    decreases parts.len() - i,
{
    if i < parts.len() {
        hidden_parts_are_found(parts, i + 1);
        reveal_strlit(".");
        if parts[i].len() > 0 {
            assert(parts[i].subrange(0, 1)[0] == parts[i][0]);
            if parts[i][0] == '.' {
                assert(parts[i].subrange(0, 1) =~= "."@);
            }
        }
        if exists|k: int|
            i <= k < parts.len() && (#[trigger] parts[k]).len() > 0 && parts[k][0] == '.' {
            let k = choose|k: int|
                i <= k < parts.len() && (#[trigger] parts[k]).len() > 0 && parts[k][0] == '.';
            if k > i {
                assert(i + 1 <= k);
            }
        }
    }
}

proof fn nameless_parts_are_found(parts: Seq<Seq<char>>, i: int)
    requires
        0 <= i,
    ensures
        nameless_from(parts, i) <==> exists|k: int| #![trigger parts[k]]
            i <= k < parts.len() && (parts[k].len() == 0 || parts[k] == "."@ || parts[k] == ".."@),
    decreases parts.len() - i,
{
    if i < parts.len() {
        nameless_parts_are_found(parts, i + 1);
        if exists|k: int| #![trigger parts[k]]
            i <= k < parts.len() && (parts[k].len() == 0 || parts[k] == "."@ || parts[k] == ".."@) {
            let k = choose|k: int| #![trigger parts[k]]
                i <= k < parts.len() && (parts[k].len() == 0 || parts[k] == "."@ || parts[k]
                    == ".."@);
            if k > i {
                assert(i + 1 <= k);
            }
        }
    }
}

/// A path is hidden exactly where one of its parts begins with a dot, and safe only where every
/// part has a name, none leads up, and it holds no backslash.
pub proof fn parts_decide(path: Seq<char>)
    ensures
        ({
            let parts = text::pieces(path, '/');
            &&& hidden(path) <==> exists|k: int|
                0 <= k < parts.len() && (#[trigger] parts[k]).len() > 0 && parts[k][0] == '.'
            &&& safe_path(path) ==> !path.contains('\\') && forall|k: int| #![trigger parts[k]]
                0 <= k < parts.len() ==> parts[k].len() > 0 && parts[k] != "."@ && parts[k]
                    != ".."@
            &&& (forall|k: int| #![trigger parts[k]]
                0 <= k < parts.len() ==> parts[k].len() > 0 && parts[k] != "."@ && parts[k]
                    != ".."@) && !path.contains('\\') && !path.contains(':') && !text::begins(
                path,
                "/"@,
            ) && vstd::utf8::encode_utf8(path).len() > 1 && vstd::utf8::encode_utf8(path)[1]
                != 58 ==> safe_path(path)
        }),
{
    let parts = text::pieces(path, '/');
    hidden_parts_are_found(parts, 0);
    nameless_parts_are_found(parts, 0);
}

/// The map is complete exactly where nothing was left out, no file was too large, no source was
/// damaged and the packages are known; otherwise it says which of these is missing.
pub proof fn completeness_is_told(omissions: OmissionCountsModel, available: bool)
    ensures
        ({
            let whole = omissions.walked_limit == 0 && omissions.walk_errors == 0
                && omissions.symlinks == 0 && omissions.invalid_paths == 0
                && omissions.path_too_long == 0 && omissions.index_limit == 0
                && omissions.oversized_files == 0 && omissions.malformed_rust == 0;
            let told = completeness_of(omissions, available);
            &&& told == Completeness::Complete <==> whole && available
            &&& told == Completeness::Bounded <==> !whole && available
            &&& told == Completeness::CargoUnavailable <==> whole && !available
            &&& told == Completeness::BoundedAndCargoUnavailable <==> !whole && !available
        }),
{
}

proof fn members_are_kept(workspace: SourceWorkspaceModel, i: int)
    requires
        0 <= i,
    ensures
        forall|p: SourcePackageModel| #[trigger]
            member_packages_from(workspace, i).contains(p) <==> workspace.members.contains(p.id)
                && exists|k: int|
                i <= k < workspace.packages.len() && #[trigger] workspace.packages[k] == p,
    decreases workspace.packages.len() - i,
{
    if i < workspace.packages.len() {
        members_are_kept(workspace, i + 1);
        let rest = member_packages_from(workspace, i + 1);
        let all = member_packages_from(workspace, i);
        let item = workspace.packages[i];
        assert forall|p: SourcePackageModel| #[trigger] all.contains(p)
            <==> workspace.members.contains(p.id) && exists|k: int|
            i <= k < workspace.packages.len() && #[trigger] workspace.packages[k] == p by {
            assert(rest.contains(p) <==> workspace.members.contains(p.id) && exists|k: int|
                i + 1 <= k < workspace.packages.len() && #[trigger] workspace.packages[k] == p);
            if workspace.members.contains(item.id) {
                assert(all == seq![item] + rest);
                assert(all[0] == item);
                if all.contains(p) {
                    let n = all.index_of(p);
                    if n > 0 {
                        assert(rest[n - 1] == p);
                    }
                }
                if rest.contains(p) {
                    let n = rest.index_of(p);
                    assert(all[n + 1] == p);
                }
            }
            if exists|k: int|
                i <= k < workspace.packages.len() && #[trigger] workspace.packages[k] == p {
                let k = choose|k: int|
                    i <= k < workspace.packages.len() && #[trigger] workspace.packages[k] == p;
                if k > i {
                    assert(i + 1 <= k);
                }
            }
        }
    }
}

proof fn edges_are_kept(packages: Seq<SourcePackageModel>, i: int, k: int, n: int)
    requires
        0 <= i <= k < packages.len(),
        0 <= n < packages[k].dependencies.len(),
    ensures
        all_edges_from(packages, i).contains(
            CargoDependencyEdgeModel {
                package: packages[k].name + "@"@ + packages[k].version,
                dependency: packages[k].dependencies[n],
            },
        ),
    decreases k - i,
{
    let edge = CargoDependencyEdgeModel {
        package: packages[k].name + "@"@ + packages[k].version,
        dependency: packages[k].dependencies[n],
    };
    let own = edges_of(packages[i]);
    let rest = all_edges_from(packages, i + 1);
    let all = all_edges_from(packages, i);
    if i < k {
        edges_are_kept(packages, i + 1, k, n);
        let m = rest.index_of(edge);
        assert(all[own.len() + m] == edge);
    } else {
        assert(own[n] == edge);
        assert(all[n] == edge);
    }
}

proof fn no_edge_is_made_up(packages: Seq<SourcePackageModel>, i: int, edge: CargoDependencyEdgeModel)
    requires
        0 <= i,
        all_edges_from(packages, i).contains(edge),
    ensures
        exists|k: int|
            i <= k < packages.len() && edge.package == (#[trigger] packages[k]).name + "@"@
                + packages[k].version && packages[k].dependencies.contains(edge.dependency),
    decreases packages.len() - i,
{
    if i < packages.len() {
        let own = edges_of(packages[i]);
        let rest = all_edges_from(packages, i + 1);
        let n = all_edges_from(packages, i).index_of(edge);
        if n < own.len() {
            assert(own[n] == edge);
            assert(packages[i].dependencies.contains(packages[i].dependencies[n]));
        } else {
            assert(rest[n - own.len()] == edge);
            assert(rest.contains(edge));
            no_edge_is_made_up(packages, i + 1, edge);
        }
    }
}

/// Every package of the workspace itself is among the facts, with its name, its version and all
/// its targets, and so is each of its dependencies; a package from elsewhere is not, and nothing
/// is there that the workspace does not say. Without a workspace there are no facts.
pub proof fn packages_are_mapped(workspace: SourceWorkspaceModel, k: int)
    requires
        0 <= k < workspace.packages.len(),
        workspace.members.contains(workspace.packages[k].id),
    ensures
        ({
            let facts = cargo_facts_of(Some(workspace));
            let package = workspace.packages[k];
            &&& facts.available
            &&& exists|n: int|
                0 <= n < facts.packages.len() && (#[trigger] facts.packages[n]).name == package.name
                    && facts.packages[n].version == package.version && facts.packages[n].targets.len()
                    == package.targets.len() && (forall|t: int|
                    0 <= t < package.targets.len() ==> facts.packages[n].targets.contains(
                        target_of(#[trigger] package.targets[t]),
                    ))
            &&& forall|n: int|
                0 <= n < package.dependencies.len() ==> facts.dependency_edges.contains(
                    CargoDependencyEdgeModel {
                        package: package.name + "@"@ + package.version,
                        dependency: #[trigger] package.dependencies[n],
                    },
                )
        }),
        !cargo_facts_of(None).available && cargo_facts_of(None).packages.len() == 0,
{
    broadcast use vstd::seq_lib::group_to_multiset_ensures;

    let facts = cargo_facts_of(Some(workspace));
    let package = workspace.packages[k];
    let members = member_packages_from(workspace, 0);
    members_are_kept(workspace, 0);
    assert(members.contains(package));
    let m = members.index_of(package);
    let packages = packages_of(members);
    let mapped = package_of(package);
    ranked::ordered_is_in_order::<CargoPackage>(packages);
    assert(packages[m] == mapped);
    assert(packages.contains(mapped));
    assert(packages.to_multiset().count(mapped) > 0);
    assert(facts.packages.contains(mapped));
    let n = facts.packages.index_of(mapped);
    let targets = Seq::new(package.targets.len(), |i: int| target_of(package.targets[i]));
    ranked::ordered_is_in_order::<CargoTarget>(targets);
    vstd::seq_lib::to_multiset_len(targets);
    vstd::seq_lib::to_multiset_len(mapped.targets);
    assert forall|t: int| 0 <= t < package.targets.len() implies mapped.targets.contains(
        target_of(#[trigger] package.targets[t]),
    ) by {
        assert(targets[t] == target_of(package.targets[t]));
        assert(targets.contains(targets[t]));
        assert(targets.to_multiset().count(targets[t]) > 0);
    }
    assert(facts.packages[n] == mapped);
    ranked::tidying_keeps_items::<CargoDependencyEdge>(all_edges_from(members, 0));
    assert forall|n: int|
        0 <= n < package.dependencies.len() implies facts.dependency_edges.contains(
        CargoDependencyEdgeModel {
            package: package.name + "@"@ + package.version,
            dependency: #[trigger] package.dependencies[n],
        },
    ) by {
        edges_are_kept(members, 0, m, n);
    }
}

/// Nothing is among the facts on packages that the workspace does not say of its own packages.
pub proof fn no_package_is_made_up(
    workspace: SourceWorkspaceModel,
    package: CargoPackageModel,
    edge: CargoDependencyEdgeModel,
)
    ensures
        cargo_facts_of(Some(workspace)).packages.contains(package) ==> exists|k: int|
            0 <= k < workspace.packages.len() && workspace.members.contains(
                (#[trigger] workspace.packages[k]).id,
            ) && workspace.packages[k].name == package.name && workspace.packages[k].version
                == package.version,
        cargo_facts_of(Some(workspace)).dependency_edges.contains(edge) ==> exists|k: int|
            0 <= k < workspace.packages.len() && workspace.members.contains(
                (#[trigger] workspace.packages[k]).id,
            ) && edge.package == workspace.packages[k].name + "@"@ + workspace.packages[k].version
                && workspace.packages[k].dependencies.contains(edge.dependency),
{
    broadcast use vstd::seq_lib::group_to_multiset_ensures;

    let facts = cargo_facts_of(Some(workspace));
    let members = member_packages_from(workspace, 0);
    let packages = packages_of(members);
    members_are_kept(workspace, 0);
    ranked::ordered_is_in_order::<CargoPackage>(packages);
    ranked::tidying_keeps_items::<CargoDependencyEdge>(all_edges_from(members, 0));
    if facts.packages.contains(package) {
        assert(facts.packages.to_multiset().count(package) > 0);
        assert(packages.contains(package));
        let n = packages.index_of(package);
        assert(members.contains(members[n]));
        let k = choose|k: int|
            0 <= k < workspace.packages.len() && #[trigger] workspace.packages[k] == members[n];
        assert(workspace.packages[k].name == package.name);
    }
    if facts.dependency_edges.contains(edge) {
        assert(all_edges_from(members, 0).contains(edge));
        no_edge_is_made_up(members, 0, edge);
        let n = choose|n: int|
            0 <= n < members.len() && edge.package == (#[trigger] members[n]).name + "@"@
                + members[n].version && members[n].dependencies.contains(edge.dependency);
        assert(members.contains(members[n]));
        let k = choose|k: int|
            0 <= k < workspace.packages.len() && #[trigger] workspace.packages[k] == members[n];
        assert(workspace.packages[k].name == members[n].name);
    }
}

/// The paths of the files of a class, in their order.
pub open spec fn paths_of_class(files: Seq<FileFactModel>, class: FileClassification) -> Seq<
    Seq<char>,
> {
    files.filter(|file: FileFactModel| file.classification == class).map_values(
        |file: FileFactModel| file.path,
    )
}

/// The paths that are shown are the first of each class.
pub open spec fn shows_first(value: RepositoryInventoryModel, files: Seq<FileFactModel>) -> bool {
    &&& value.source_paths.is_prefix_of(paths_of_class(files, FileClassification::Source))
    &&& value.test_paths.is_prefix_of(paths_of_class(files, FileClassification::Test))
    &&& value.manifest_paths.is_prefix_of(paths_of_class(files, FileClassification::Manifest))
    &&& value.configuration_paths.is_prefix_of(
        paths_of_class(files, FileClassification::Configuration),
    )
}

spec fn shows_all(value: RepositoryInventoryModel, files: Seq<FileFactModel>) -> bool {
    &&& value.source_paths == paths_of_class(files, FileClassification::Source)
    &&& value.test_paths == paths_of_class(files, FileClassification::Test)
    &&& value.manifest_paths == paths_of_class(files, FileClassification::Manifest)
    &&& value.configuration_paths == paths_of_class(files, FileClassification::Configuration)
}

proof fn one_more_path(files: Seq<FileFactModel>, i: int, class: FileClassification)
    requires
        0 <= i < files.len(),
    ensures
        paths_of_class(files.take(i + 1), class) == if files[i].classification == class {
            paths_of_class(files.take(i), class).push(files[i].path)
        } else {
            paths_of_class(files.take(i), class)
        },
{
    reveal(Seq::filter);
    assert(files.take(i + 1).drop_last() =~= files.take(i));
    let before = paths_of_class(files.take(i), class);
    let after = paths_of_class(files.take(i + 1), class);
    if files[i].classification == class {
        assert(after =~= before.push(files[i].path));
    } else {
        assert(after =~= before);
    }
}

proof fn first_paths_are_shown_from(
    value: RepositoryInventoryModel,
    files: Seq<FileFactModel>,
    i: int,
)
    requires
        0 <= i <= files.len(),
        shows_first(value, files.take(i)),
        path_count(value) >= crate::repository_map::MAX_INVENTORY_PATHS || shows_all(
            value,
            files.take(i),
        ),
    ensures
        shows_first(with_files_from(value, files, i), files),
        path_count(with_files_from(value, files, i)) >= crate::repository_map::MAX_INVENTORY_PATHS
            || shows_all(with_files_from(value, files, i), files),
    decreases files.len() - i,
{
    if i < files.len() {
        one_more_path(files, i, FileClassification::Source);
        one_more_path(files, i, FileClassification::Test);
        one_more_path(files, i, FileClassification::Manifest);
        one_more_path(files, i, FileClassification::Configuration);
        first_paths_are_shown_from(with_file(value, files[i]), files, i + 1);
    } else {
        assert(files.take(i) =~= files);
    }
}

proof fn shrinking_shows_first(value: RepositoryInventoryModel, files: Seq<FileFactModel>)
    requires
        shows_first(value, files),
    ensures
        shows_first(bounded(value), files),
    decreases weight(value),
{
    if bounded(value) != value {
        if shrunk(value) is Some {
            shrunk_is_lighter(value);
            shrinking_shows_first(shrunk(value)->0, files);
        }
    }
}

/// An inventory shows the first paths of each class of files, in the order of the index, and
/// only them: a source among the sources, a test among the tests, and so on.
pub proof fn inventories_show_first_paths(index: RepositoryMapIndexModel)
    ensures
        shows_first(inventory_of(index), index.files),
        inventory_of(index).indexed_files == index.files.len(),
        inventory_of(index).completeness == index.completeness,
{
    let omissions = crate::repository_map::omitted_files(index.omissions);
    let begin = without_paths(index);
    let none = index.files.take(0);
    assert(forall|class: FileClassification| #[trigger] paths_of_class(none, class) =~= seq![]) by {
        reveal(Seq::filter);
    }
    assert(paths_of_class(none, FileClassification::Source) =~= seq![]);
    assert(paths_of_class(none, FileClassification::Test) =~= seq![]);
    assert(paths_of_class(none, FileClassification::Manifest) =~= seq![]);
    assert(paths_of_class(none, FileClassification::Configuration) =~= seq![]);
    first_paths_are_shown_from(begin, index.files, 0);
    let filled = with_files_from(begin, index.files, 0);
    files_keep_the_rest(begin, index.files, 0);
    shrinking_shows_first(filled, index.files);
    shrinking_keeps_the_rest(filled);
    let once = counted(bounded(filled), omissions);
    shrinking_shows_first(once, index.files);
    shrinking_keeps_the_rest(once);
}

proof fn files_keep_the_rest(value: RepositoryInventoryModel, files: Seq<FileFactModel>, i: int)
    ensures
        with_files_from(value, files, i).indexed_files == value.indexed_files,
        with_files_from(value, files, i).completeness == value.completeness,
        with_files_from(value, files, i).packages == value.packages,
    decreases files.len() - i,
{
    if 0 <= i < files.len() {
        files_keep_the_rest(with_file(value, files[i]), files, i + 1);
    }
}

proof fn shrinking_keeps_the_rest(value: RepositoryInventoryModel)
    ensures
        bounded(value).indexed_files == value.indexed_files,
        bounded(value).completeness == value.completeness,
    decreases weight(value),
{
    if bounded(value) != value {
        if shrunk(value) is Some {
            shrunk_is_lighter(value);
            shrinking_keeps_the_rest(shrunk(value)->0);
        }
    }
}

/// The inventory of a few files with small paths shows all of them, each among those of its
/// class.
pub proof fn small_inventories_show_all_paths(index: RepositoryMapIndexModel)
    requires
        path_count(with_files_from(without_paths(index), index.files, 0))
            < crate::repository_map::MAX_INVENTORY_PATHS,
        bounded(with_files_from(without_paths(index), index.files, 0)) == with_files_from(
            without_paths(index),
            index.files,
            0,
        ),
        bounded(
            counted(
                with_files_from(without_paths(index), index.files, 0),
                crate::repository_map::omitted_files(index.omissions),
            ),
        ) == counted(
            with_files_from(without_paths(index), index.files, 0),
            crate::repository_map::omitted_files(index.omissions),
        ),
    ensures
        inventory_of(index).source_paths == paths_of_class(index.files, FileClassification::Source),
        inventory_of(index).test_paths == paths_of_class(index.files, FileClassification::Test),
        inventory_of(index).manifest_paths == paths_of_class(
            index.files,
            FileClassification::Manifest,
        ),
        inventory_of(index).configuration_paths == paths_of_class(
            index.files,
            FileClassification::Configuration,
        ),
{
    let begin = without_paths(index);
    let none = index.files.take(0);
    assert(forall|class: FileClassification| #[trigger] paths_of_class(none, class) =~= seq![]) by {
        reveal(Seq::filter);
    }
    assert(paths_of_class(none, FileClassification::Source) =~= seq![]);
    assert(paths_of_class(none, FileClassification::Test) =~= seq![]);
    assert(paths_of_class(none, FileClassification::Manifest) =~= seq![]);
    assert(paths_of_class(none, FileClassification::Configuration) =~= seq![]);
    first_paths_are_shown_from(begin, index.files, 0);
}

proof fn hidden_paths_go(paths: Seq<Seq<char>>, i: int)
    requires
        0 <= i <= paths.len(),
    ensures
        visible_from(paths, i) == paths.skip(i).filter(|path: Seq<char>| !hidden(path)),
    decreases paths.len() - i,
{
    let shown = |path: Seq<char>| !hidden(path);
    if i < paths.len() {
        hidden_paths_go(paths, i + 1);
        let rest = paths.skip(i + 1);
        assert(paths.skip(i) =~= seq![paths[i]] + rest);
        Seq::filter_distributes_over_add(seq![paths[i]], rest, shown);
        assert(seq![paths[i]].filter(shown) =~= if hidden(paths[i]) {
            seq![]
        } else {
            seq![paths[i]]
        }) by {
            reveal_with_fuel(Seq::filter, 3);
            assert(seq![paths[i]].drop_last() =~= seq![]);
            assert(Seq::<Seq<char>>::empty().filter(shown) =~= seq![]);
        }
        assert(visible_from(paths, i) =~= paths.skip(i).filter(shown));
    } else {
        assert(paths.skip(i) =~= seq![]);
        assert(paths.skip(i).filter(shown) =~= seq![]) by {
            reveal(Seq::filter);
        }
    }
}

/// Exactly the hidden paths are left out where only the visible ones are shown.
pub proof fn hidden_paths_are_left_out(paths: Seq<Seq<char>>)
    ensures
        visible_from(paths, 0) == paths.filter(|path: Seq<char>| !hidden(path)),
{
    hidden_paths_go(paths, 0);
    assert(paths.skip(0) =~= paths);
}

/// A file that names a Git directory names it behind its first words, below the workspace where
/// it is not absolute; and the name of a request is 64 small hexadecimal digits and an ending.
pub proof fn names_are_read(workspace: Seq<char>, directory: Seq<char>, digits: Seq<char>)
    requires
        directory.len() > 0,
        !text::white_space(directory.last()),
    ensures
        named_git_dir("gitdir: "@ + directory + seq!['\n'], workspace) == Some(
            path::joined(workspace, directory),
        ),
        request_id(digits + ".json"@) <==> digits.len() == 64 && forall|k: int|
            #![trigger digits[k]]
            0 <= k < 64 ==> '0' <= digits[k] <= '9' || 'a' <= digits[k] <= 'f',
{
    reveal_strlit("gitdir: ");
    reveal_strlit(".json");
    let inner = "gitdir: "@ + directory;
    assert(inner[0] == 'g');
    assert(inner.last() == directory.last());
    text::laws::surrounding_space_is_trimmed(seq![], inner, seq!['\n']);
    assert(seq![] + inner + seq!['\n'] =~= inner + seq!['\n']);
    assert(inner.subrange(0, 8) =~= "gitdir: "@);
    assert(inner.subrange(8, inner.len() as int) =~= directory);
    finishes_there(digits, ".json"@);
    let id = digits + ".json"@;
    if request_id(id) {
        assert forall|k: int| #![trigger digits[k]] 0 <= k < 64 implies '0' <= digits[k] <= '9'
            || 'a' <= digits[k] <= 'f' by {
            assert(crate::repository_map::state::lower_hex(id[k]));
        }
    }
    if digits.len() == 64 && forall|k: int| #![trigger digits[k]]
        0 <= k < 64 ==> '0' <= digits[k] <= '9' || 'a' <= digits[k] <= 'f' {
        assert forall|k: int| 0 <= k < 64 implies crate::repository_map::state::lower_hex(
            #[trigger] id[k],
        ) by {
            assert(id[k] == digits[k]);
        }
    }
}

/// The path of each file comes before that of the next.
pub open spec fn each_before_the_next(files: Seq<FileFactModel>, i: int) -> bool {
    forall|j: int, k: int|
        #![trigger files[j], files[k]]
        i <= j && k == j + 1 && k < files.len() ==> text::before(files[j].path, files[k].path)
}

proof fn paths_increase_one_by_one(files: Seq<FileFactModel>, i: int)
    requires
        0 <= i,
    ensures
        paths_increase_from(files, i) <==> each_before_the_next(files, i),
    decreases files.len() - i,
{
    if i + 1 < files.len() {
        paths_increase_one_by_one(files, i + 1);
        if each_before_the_next(files, i) {
            assert(text::before(files[i].path, files[i + 1].path));
            assert(each_before_the_next(files, i + 1));
        }
        if paths_increase_from(files, i) {
            assert(each_before_the_next(files, i + 1));
            assert forall|j: int, k: int|
                #![trigger files[j], files[k]]
                i <= j && k == j + 1 && k < files.len() implies text::before(
                files[j].path,
                files[k].path,
            ) by {
                if j > i {
                    assert(i + 1 <= j);
                }
            }
        }
    }
}

/// An index that was kept is used exactly where it has the present schema, the paths of its
/// files increase, and every file has a safe path, and a digest of 64 hexadecimal digits unless
/// it is too large to be read.
pub proof fn only_sound_indexes_are_used(index: RepositoryMapIndexModel)
    ensures
        accepted(None) is None,
        accepted(Some(index)) matches Some(used) ==> used == index,
        accepted(Some(index)) is Some ==> {
            &&& index.schema == "cabal.repository_map.v1"@
            &&& each_before_the_next(index.files, 0)
            &&& forall|k: int| #![trigger index.files[k]]
                0 <= k < index.files.len() ==> safe_path(index.files[k].path)
            &&& forall|k: int| #![trigger index.files[k]]
                0 <= k < index.files.len() && index.files[k].sha256 is None ==> index.files[k].bytes
                    > 1_048_576
            &&& forall|k: int| #![trigger index.files[k]]
                0 <= k < index.files.len() && index.files[k].sha256 is Some
                    ==> index.files[k].sha256->0.len() == 64
        },
{
    paths_increase_one_by_one(index.files, 0);
    if accepted(Some(index)) is Some {
        assert forall|k: int| #![trigger index.files[k]] 0 <= k < index.files.len() implies
            crate::repository_map::fact_is_valid(index.files[k]) by {}
    }
}

} // verus!
