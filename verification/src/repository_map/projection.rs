//! A bounded inventory of what an index holds.

use vstd::prelude::*;
use crate::json;
use crate::json::ToJson;
use crate::list;
use crate::repository_map;
use crate::repository_map::{
    is_hidden_path, omitted_file_count, CargoPackage, CargoPackageModel,
    FileClassification, FileFactModel, InventoryPackage, InventoryPackageModel,
    RepositoryInventory, RepositoryInventoryModel, RepositoryMapIndex, RepositoryMapIndexModel,
    INVENTORY_SCHEMA, MAX_INVENTORY_BYTES, MAX_INVENTORY_PACKAGES, MAX_INVENTORY_PATHS,
    MAX_INVENTORY_TARGETS,
};
use crate::text;

verus! {

broadcast use vstd::string::group_string_axioms;

/// A list cut off behind its first `n` items.
pub open spec fn first_items<V>(items: Seq<V>, n: int) -> Seq<V> {
    if items.len() > n {
        items.take(n)
    } else {
        items
    }
}

/// How many targets the packages of an inventory have.
pub open spec fn target_sum(packages: Seq<InventoryPackageModel>) -> nat
    decreases packages.len(),
{
    if packages.len() == 0 {
        0
    } else {
        target_sum(packages.drop_last()) + packages.last().targets.len()
    }
}

/// How many targets the packages from `i` on have.
pub open spec fn cargo_target_sum(packages: Seq<CargoPackageModel>, i: int) -> nat
    decreases packages.len() - i,
{
    if i < 0 || i >= packages.len() {
        0
    } else {
        packages[i].targets.len() + cargo_target_sum(packages, i + 1)
    }
}

/// How many paths an inventory shows.
pub open spec fn path_count(value: RepositoryInventoryModel) -> nat {
    value.source_paths.len() + value.test_paths.len() + value.manifest_paths.len()
        + value.configuration_paths.len()
}

/// A package with no more targets than an inventory shows of one.
pub open spec fn projected_package(package: CargoPackageModel) -> InventoryPackageModel {
    InventoryPackageModel {
        name: package.name,
        version: package.version,
        targets: first_items(package.targets, MAX_INVENTORY_TARGETS as int),
    }
}

/// The first packages, as far as an inventory shows them.
pub open spec fn projected_packages(packages: Seq<CargoPackageModel>) -> Seq<
    InventoryPackageModel,
> {
    let shown = first_items(packages, MAX_INVENTORY_PACKAGES as int);
    Seq::new(shown.len(), |i: int| projected_package(shown[i]))
}

/// An inventory of an index before any path is in it.
pub open spec fn without_paths(index: RepositoryMapIndexModel) -> RepositoryInventoryModel {
    RepositoryInventoryModel {
        schema: INVENTORY_SCHEMA@,
        indexed_files: index.files.len(),
        projected_files: 0,
        omitted_files: 0,
        source_paths: seq![],
        test_paths: seq![],
        manifest_paths: seq![],
        configuration_paths: seq![],
        packages: projected_packages(index.cargo.packages),
        indexed_packages: index.cargo.packages.len(),
        omitted_packages: 0,
        indexed_targets: cargo_target_sum(index.cargo.packages, 0),
        omitted_targets: 0,
        projection_complete: true,
        completeness: index.completeness,
    }
}

/// The inventory with one more file: its path goes to those of its part, as long as there
/// is room for it.
pub open spec fn with_file(
    value: RepositoryInventoryModel,
    file: FileFactModel,
) -> RepositoryInventoryModel {
    if path_count(value) >= MAX_INVENTORY_PATHS {
        value
    } else {
        match file.classification {
            FileClassification::Source => RepositoryInventoryModel {
                source_paths: value.source_paths.push(file.path),
                ..value
            },
            FileClassification::Test => RepositoryInventoryModel {
                test_paths: value.test_paths.push(file.path),
                ..value
            },
            FileClassification::Manifest => RepositoryInventoryModel {
                manifest_paths: value.manifest_paths.push(file.path),
                ..value
            },
            FileClassification::Configuration => RepositoryInventoryModel {
                configuration_paths: value.configuration_paths.push(file.path),
                ..value
            },
            FileClassification::Other => value,
        }
    }
}

/// The inventory with the files from `i` on.
pub open spec fn with_files_from(
    value: RepositoryInventoryModel,
    files: Seq<FileFactModel>,
    i: int,
) -> RepositoryInventoryModel
    decreases files.len() - i,
{
    if i < 0 || i >= files.len() {
        value
    } else {
        with_files_from(with_file(value, files[i]), files, i + 1)
    }
}

/// The bytes of an inventory as JSON.
pub open spec fn bytes_of(value: RepositoryInventoryModel) -> Seq<u8> {
    vstd::utf8::encode_utf8(json::written(RepositoryInventory::json(value)))
}

/// The inventory with one thing less: the last path, of configurations before manifests
/// before tests before sources, or the last target of the last package, or that package.
pub open spec fn shrunk(value: RepositoryInventoryModel) -> Option<RepositoryInventoryModel> {
    if value.configuration_paths.len() > 0 {
        Some(
            RepositoryInventoryModel {
                configuration_paths: value.configuration_paths.drop_last(),
                ..value
            },
        )
    } else if value.manifest_paths.len() > 0 {
        Some(
            RepositoryInventoryModel {
                manifest_paths: value.manifest_paths.drop_last(),
                ..value
            },
        )
    } else if value.test_paths.len() > 0 {
        Some(RepositoryInventoryModel { test_paths: value.test_paths.drop_last(), ..value })
    } else if value.source_paths.len() > 0 {
        Some(RepositoryInventoryModel { source_paths: value.source_paths.drop_last(), ..value })
    } else if value.packages.len() > 0 {
        let last = value.packages.last();
        if last.targets.len() > 0 {
            Some(
                RepositoryInventoryModel {
                    packages: value.packages.drop_last().push(
                        InventoryPackageModel { targets: last.targets.drop_last(), ..last },
                    ),
                    ..value
                },
            )
        } else {
            Some(RepositoryInventoryModel { packages: value.packages.drop_last(), ..value })
        }
    } else {
        None
    }
}

/// How many things can be taken out of an inventory.
pub open spec fn weight(value: RepositoryInventoryModel) -> nat {
    path_count(value) + target_sum(value.packages) + value.packages.len()
}

/// An inventory with one thing less is smaller.
pub proof fn shrunk_is_lighter(value: RepositoryInventoryModel)
    ensures
        shrunk(value) matches Some(next) ==> weight(next) < weight(value) && target_sum(
            next.packages,
        ) <= target_sum(value.packages) && path_count(next) <= path_count(value),
{
    if value.packages.len() > 0 {
        let last = value.packages.last();
        let smaller = value.packages.drop_last().push(
            InventoryPackageModel { targets: last.targets.drop_last(), ..last },
        );
        assert(smaller.drop_last() =~= value.packages.drop_last());
    }
}

/// The inventory without as many things as must go for it to fit.
pub open spec fn bounded(value: RepositoryInventoryModel) -> RepositoryInventoryModel
    decreases weight(value),
{
    if bytes_of(value).len() <= MAX_INVENTORY_BYTES {
        value
    } else {
        match shrunk(value) {
            Some(next) => {
                proof {
                    shrunk_is_lighter(value);
                }
                bounded(next)
            },
            None => value,
        }
    }
}

/// The difference of two numbers, or none where the second is larger.
pub open spec fn less(a: nat, b: nat) -> nat {
    if a > b {
        (a - b) as nat
    } else {
        0
    }
}

/// The inventory with its counts as they follow from its lists.
pub open spec fn counted(
    value: RepositoryInventoryModel,
    index_omissions: nat,
) -> RepositoryInventoryModel {
    let omitted_files = index_omissions + less(value.indexed_files, path_count(value));
    let omitted_packages = less(value.indexed_packages, value.packages.len());
    let omitted_targets = less(value.indexed_targets, target_sum(value.packages));
    RepositoryInventoryModel {
        projected_files: path_count(value),
        omitted_files,
        omitted_packages,
        omitted_targets,
        projection_complete: omitted_files == 0 && omitted_packages == 0 && omitted_targets == 0,
        ..value
    }
}

/// The inventory of an index.
pub open spec fn inventory_of(index: RepositoryMapIndexModel) -> RepositoryInventoryModel {
    let omissions = repository_map::omitted_files(index.omissions);
    let filled = with_files_from(without_paths(index), index.files, 0);
    counted(bounded(counted(bounded(filled), omissions)), omissions)
}

/// The paths from `i` on that are not hidden.
pub open spec fn visible_from(paths: Seq<Seq<char>>, i: int) -> Seq<Seq<char>>
    decreases paths.len() - i,
{
    if i < 0 || i >= paths.len() {
        seq![]
    } else if repository_map::hidden(paths[i]) {
        visible_from(paths, i + 1)
    } else {
        seq![paths[i]] + visible_from(paths, i + 1)
    }
}

/// The inventory of an index without hidden paths.
pub open spec fn visible_inventory_of(index: RepositoryMapIndexModel) -> RepositoryInventoryModel {
    let omissions = repository_map::omitted_files(index.omissions);
    let all = inventory_of(index);
    let visible = RepositoryInventoryModel {
        source_paths: visible_from(all.source_paths, 0),
        test_paths: visible_from(all.test_paths, 0),
        manifest_paths: visible_from(all.manifest_paths, 0),
        configuration_paths: visible_from(all.configuration_paths, 0),
        ..all
    };
    counted(bounded(counted(visible, omissions)), omissions)
}

/// The counts of an index fit in the numbers that hold them.
pub open spec fn countable(index: RepositoryMapIndexModel) -> bool {
    &&& repository_map::omitted_files(index.omissions) + index.files.len() <= u64::MAX
    &&& cargo_target_sum(index.cargo.packages, 0) <= u64::MAX
}

/// The bytes of the paths from `i` on that are not hidden, each with a line end.
pub open spec fn visible_bytes_from(files: Seq<FileFactModel>, i: int) -> nat
    decreases files.len() - i,
{
    if i < 0 || i >= files.len() {
        0
    } else if repository_map::hidden(files[i].path) {
        visible_bytes_from(files, i + 1)
    } else {
        text::byte_len(files[i].path) + 1 + visible_bytes_from(files, i + 1)
    }
}

fn sum_targets(packages: &Vec<CargoPackage>) -> (r: Option<u64>)
    ensures
        match r {
            Some(sum) => sum == cargo_target_sum(packages.deep_view(), 0),
            None => cargo_target_sum(packages.deep_view(), 0) > u64::MAX,
        },
{
    let ghost all = packages.deep_view();
    let mut sum: u64 = 0;
    let mut i: usize = 0;
    while i < packages.len()
        invariant
            i <= packages@.len(),
            all == packages.deep_view(),
            cargo_target_sum(all, 0) == sum + cargo_target_sum(all, i as int),
        decreases packages@.len() - i,
    {
        assert(all[i as int] == packages@[i as int].deep_view());
        let count: usize = packages[i].targets.len();
        assert(all[i as int].targets.len() == count);
        match sum.checked_add(count as u64) {
            Some(next) => {
                sum = next;
            },
            None => {
                return None;
            },
        }
        i += 1;
    }
    Some(sum)
}

/// The counts of an index fit in the numbers that hold them.
pub fn is_countable(index: &RepositoryMapIndex) -> (r: bool)
    ensures
        r == countable(index.deep_view()),
{
    let omissions = &index.omissions;
    let sum: u128 = omissions.walked_limit as u128 + omissions.walk_errors as u128
        + omissions.symlinks as u128 + omissions.invalid_paths as u128
        + omissions.path_too_long as u128 + omissions.index_limit as u128
        + index.files.len() as u128;
    sum <= u64::MAX as u128 && sum_targets(&index.cargo.packages).is_some()
}

/// The bytes of an inventory as JSON.
pub fn inventory_bytes(inventory: &RepositoryInventory) -> (r: Vec<u8>)
    ensures
        r@ == bytes_of(inventory.deep_view()),
{
    let written = inventory.to_json().to_text();
    vstd::slice::slice_to_vec(written.as_str().as_bytes())
}

fn project_packages(packages: &Vec<CargoPackage>) -> (r: Vec<InventoryPackage>)
    ensures
        r.deep_view() == projected_packages(packages.deep_view()),
{
    let ghost all = packages.deep_view();
    let ghost wanted = projected_packages(all);
    let total: usize = packages.len();
    let count: usize = if total > MAX_INVENTORY_PACKAGES {
        MAX_INVENTORY_PACKAGES
    } else {
        total
    };
    assert(wanted.len() == count);
    let mut out: Vec<InventoryPackage> = Vec::new();
    let mut i: usize = 0;
    while i < count
        invariant
            i <= count <= packages@.len(),
            all == packages.deep_view(),
            wanted == projected_packages(all),
            wanted.len() == count,
            out.deep_view() =~= wanted.take(i as int),
        decreases count - i,
    {
        assert(all[i as int] == packages@[i as int].deep_view());
        let package = &packages[i];
        let targets_total: usize = package.targets.len();
        let targets = if targets_total > MAX_INVENTORY_TARGETS {
            list::duplicate_first(&package.targets, MAX_INVENTORY_TARGETS)
        } else {
            list::duplicate_all(&package.targets)
        };
        list::push(
            &mut out,
            InventoryPackage {
                name: text::copy(package.name.as_str()),
                version: text::copy(package.version.as_str()),
                targets,
            },
        );
        assert(wanted[i as int] == projected_package(all[i as int]));
        i += 1;
    }
    assert(wanted.take(count as int) =~= wanted);
    out
}

fn total_inventory_paths(value: &RepositoryInventory) -> (r: usize)
    requires
        path_count(value.deep_view()) <= MAX_INVENTORY_PATHS,
    ensures
        r == path_count(value.deep_view()),
{
    assert(value.source_paths.deep_view().len() == value.source_paths@.len());
    assert(value.test_paths.deep_view().len() == value.test_paths@.len());
    assert(value.manifest_paths.deep_view().len() == value.manifest_paths@.len());
    assert(value.configuration_paths.deep_view().len() == value.configuration_paths@.len());
    value.source_paths.len() + value.test_paths.len() + value.manifest_paths.len()
        + value.configuration_paths.len()
}

fn pop_text(list: &mut Vec<String>) -> (r: bool)
    ensures
        r == (old(list).deep_view().len() > 0),
        r ==> final(list).deep_view() == old(list).deep_view().drop_last(),
        !r ==> final(list).deep_view() == old(list).deep_view(),
{
    let ghost all = list.deep_view();
    match list.pop() {
        Some(_) => {
            assert(list.deep_view() =~= all.drop_last());
            true
        },
        None => false,
    }
}

fn shrink(value: &mut RepositoryInventory) -> (r: bool)
    ensures
        match shrunk(old(value).deep_view()) {
            Some(next) => r && final(value).deep_view() == next,
            None => !r && final(value).deep_view() == old(value).deep_view(),
        },
{
    if pop_text(&mut value.configuration_paths) || pop_text(&mut value.manifest_paths) || pop_text(
        &mut value.test_paths,
    ) || pop_text(&mut value.source_paths) {
        return true;
    }
    let ghost all = value.packages.deep_view();
    match value.packages.pop() {
        Some(package) => {
            assert(value.packages.deep_view() =~= all.drop_last());
            assert(all.last() == package.deep_view());
            let mut package = package;
            let ghost targets = package.targets.deep_view();
            if package.targets.pop().is_some() {
                assert(package.targets.deep_view() =~= targets.drop_last());
                list::push(&mut value.packages, package);
            }
            true
        },
        None => false,
    }
}

/// Takes things out of an inventory until it fits.
pub fn bound_inventory(value: &mut RepositoryInventory)
    ensures
        final(value).deep_view() == bounded(old(value).deep_view()),
{
    let ghost start = value.deep_view();
    loop
        invariant
            start == old(value).deep_view(),
            bounded(start) == bounded(value.deep_view()),
        decreases weight(value.deep_view()),
    {
        let written = value.to_json().to_text();
        if text::count_bytes(written.as_str()) <= MAX_INVENTORY_BYTES {
            return;
        }
        proof {
            shrunk_is_lighter(value.deep_view());
        }
        if !shrink(value) {
            return;
        }
    }
}

fn count_less(a: u64, b: u64) -> (r: u64)
    ensures
        r == less(a as nat, b as nat),
{
    if a > b {
        a - b
    } else {
        0
    }
}

proof fn sum_of_first(packages: Seq<InventoryPackageModel>, i: int)
    requires
        0 <= i < packages.len(),
    ensures
        target_sum(packages.take(i + 1)) == target_sum(packages.take(i))
            + packages[i].targets.len(),
{
    assert(packages.take(i + 1).drop_last() =~= packages.take(i));
}

proof fn sum_grows(packages: Seq<InventoryPackageModel>, i: int)
    requires
        0 <= i <= packages.len(),
    ensures
        target_sum(packages.take(i)) <= target_sum(packages),
    decreases packages.len() - i,
{
    if i < packages.len() {
        sum_of_first(packages, i);
        sum_grows(packages, i + 1);
    } else {
        assert(packages.take(i) =~= packages);
    }
}

fn count_targets(packages: &Vec<InventoryPackage>) -> (r: u64)
    requires
        target_sum(packages.deep_view()) <= u64::MAX,
    ensures
        r == target_sum(packages.deep_view()),
{
    let ghost all = packages.deep_view();
    let mut sum: u64 = 0;
    let mut i: usize = 0;
    while i < packages.len()
        invariant
            i <= packages@.len(),
            all == packages.deep_view(),
            sum == target_sum(all.take(i as int)),
            target_sum(all) <= u64::MAX,
        decreases packages@.len() - i,
    {
        assert(all[i as int] == packages@[i as int].deep_view());
        proof {
            sum_of_first(all, i as int);
            sum_grows(all, i + 1);
        }
        assert(all[i as int].targets.len() == packages@[i as int].targets@.len());
        sum += packages[i].targets.len() as u64;
        i += 1;
    }
    assert(all.take(all.len() as int) =~= all);
    sum
}

/// An inventory whose lists are as short as those of an inventory are.
pub open spec fn small(value: RepositoryInventoryModel) -> bool {
    path_count(value) <= MAX_INVENTORY_PATHS && target_sum(value.packages) <= MAX_INVENTORY_PACKAGES
        * MAX_INVENTORY_TARGETS
}

/// Gives an inventory the counts that follow from its lists.
pub fn update_inventory_counts(value: &mut RepositoryInventory, index_omissions: u64)
    requires
        small(old(value).deep_view()),
        index_omissions + old(value).indexed_files <= u64::MAX,
    ensures
        final(value).deep_view() == counted(old(value).deep_view(), index_omissions as nat),
{
    let projected: u64 = total_inventory_paths(value) as u64;
    value.projected_files = projected;
    value.omitted_files = index_omissions + count_less(value.indexed_files, projected);
    assert(value.packages.deep_view().len() == value.packages@.len());
    value.omitted_packages = count_less(value.indexed_packages, value.packages.len() as u64);
    let targets: u64 = count_targets(&value.packages);
    value.omitted_targets = count_less(value.indexed_targets, targets);
    value.projection_complete = value.omitted_files == 0 && value.omitted_packages == 0
        && value.omitted_targets == 0;
}

proof fn bounded_keeps(value: RepositoryInventoryModel)
    ensures
        bounded(value).schema == value.schema,
        bounded(value).indexed_files == value.indexed_files,
        bounded(value).indexed_packages == value.indexed_packages,
        bounded(value).indexed_targets == value.indexed_targets,
        bounded(value).completeness == value.completeness,
        path_count(bounded(value)) <= path_count(value),
        target_sum(bounded(value).packages) <= target_sum(value.packages),
        bytes_of(bounded(value)).len() <= MAX_INVENTORY_BYTES || (path_count(bounded(value)) == 0
            && bounded(value).packages.len() == 0),
    decreases weight(value),
{
    if bytes_of(value).len() > MAX_INVENTORY_BYTES {
        if let Some(next) = shrunk(value) {
            shrunk_is_lighter(value);
            bounded_keeps(next);
        }
    }
}

proof fn files_keep_bounds(value: RepositoryInventoryModel, files: Seq<FileFactModel>, i: int)
    requires
        path_count(value) <= MAX_INVENTORY_PATHS,
        0 <= i <= files.len(),
    ensures
        path_count(with_files_from(value, files, i)) <= MAX_INVENTORY_PATHS,
        path_count(with_files_from(value, files, i)) <= path_count(value) + files.len() - i,
        with_files_from(value, files, i).packages == value.packages,
        with_files_from(value, files, i).indexed_files == value.indexed_files,
        with_files_from(value, files, i).indexed_packages == value.indexed_packages,
        with_files_from(value, files, i).indexed_targets == value.indexed_targets,
    decreases files.len() - i,
{
    if i < files.len() {
        files_keep_bounds(with_file(value, files[i]), files, i + 1);
    }
}

proof fn short_lists_have_few_targets(packages: Seq<InventoryPackageModel>)
    requires
        forall|i: int|
            0 <= i < packages.len() ==> (#[trigger] packages[i]).targets.len()
                <= MAX_INVENTORY_TARGETS,
    ensures
        target_sum(packages) <= packages.len() * MAX_INVENTORY_TARGETS,
    decreases packages.len(),
{
    if packages.len() > 0 {
        short_lists_have_few_targets(packages.drop_last());
        assert(packages.len() * MAX_INVENTORY_TARGETS == (packages.len() - 1)
            * MAX_INVENTORY_TARGETS + MAX_INVENTORY_TARGETS) by (nonlinear_arith);
    }
}

proof fn projected_packages_are_few(packages: Seq<CargoPackageModel>)
    ensures
        target_sum(projected_packages(packages)) <= MAX_INVENTORY_PACKAGES * MAX_INVENTORY_TARGETS,
{
    let shown = projected_packages(packages);
    short_lists_have_few_targets(shown);
    assert(shown.len() * MAX_INVENTORY_TARGETS <= MAX_INVENTORY_PACKAGES * MAX_INVENTORY_TARGETS)
        by (nonlinear_arith)
        requires
            shown.len() <= MAX_INVENTORY_PACKAGES,
    ;
}

fn add_files(value: &mut RepositoryInventory, index: &RepositoryMapIndex)
    requires
        path_count(old(value).deep_view()) <= MAX_INVENTORY_PATHS,
    ensures
        final(value).deep_view() == with_files_from(
            old(value).deep_view(),
            index.deep_view().files,
            0,
        ),
{
    let ghost start = value.deep_view();
    let ghost all = index.files.deep_view();
    let mut i: usize = 0;
    while i < index.files.len()
        invariant
            i <= index.files@.len(),
            all == index.files.deep_view(),
            path_count(value.deep_view()) <= MAX_INVENTORY_PATHS,
            with_files_from(start, all, 0) == with_files_from(value.deep_view(), all, i as int),
        decreases index.files@.len() - i,
    {
        assert(all[i as int] == index.files@[i as int].deep_view());
        let file = &index.files[i];
        if total_inventory_paths(value) < MAX_INVENTORY_PATHS {
            let path = text::copy(file.path.as_str());
            match file.classification {
                FileClassification::Source => list::push(&mut value.source_paths, path),
                FileClassification::Test => list::push(&mut value.test_paths, path),
                FileClassification::Manifest => list::push(&mut value.manifest_paths, path),
                FileClassification::Configuration => {
                    list::push(&mut value.configuration_paths, path)
                },
                FileClassification::Other => {},
            }
        }
        i += 1;
    }
}

fn empty_inventory(index: &RepositoryMapIndex) -> (r: RepositoryInventory)
    requires
        countable(index.deep_view()),
    ensures
        r.deep_view() == without_paths(index.deep_view()),
{
    let indexed_targets: u64 = match sum_targets(&index.cargo.packages) {
        Some(sum) => sum,
        None => 0,
    };
    assert(index.files.deep_view().len() == index.files@.len());
    assert(index.cargo.packages.deep_view().len() == index.cargo.packages@.len());
    let r = RepositoryInventory {
        schema: text::copy(INVENTORY_SCHEMA),
        indexed_files: index.files.len() as u64,
        projected_files: 0,
        omitted_files: 0,
        source_paths: Vec::new(),
        test_paths: Vec::new(),
        manifest_paths: Vec::new(),
        configuration_paths: Vec::new(),
        packages: project_packages(&index.cargo.packages),
        indexed_packages: index.cargo.packages.len() as u64,
        omitted_packages: 0,
        indexed_targets,
        omitted_targets: 0,
        projection_complete: true,
        completeness: index.completeness,
    };
    assert(r.source_paths.deep_view() =~= Seq::empty());
    assert(r.test_paths.deep_view() =~= Seq::empty());
    assert(r.manifest_paths.deep_view() =~= Seq::empty());
    assert(r.configuration_paths.deep_view() =~= Seq::empty());
    r
}

proof fn inventory_is_small(index: RepositoryMapIndexModel)
    ensures
        ({
            let omissions = repository_map::omitted_files(index.omissions);
            let filled = with_files_from(without_paths(index), index.files, 0);
            let first = bounded(filled);
            let second = bounded(counted(first, omissions));
            &&& small(first) && first.indexed_files == index.files.len()
            &&& small(second) && second.indexed_files == index.files.len()
            &&& small(inventory_of(index)) && inventory_of(index).indexed_files == index.files.len()
            &&& path_count(inventory_of(index)) <= index.files.len()
        }),
{
    let omissions = repository_map::omitted_files(index.omissions);
    let empty = without_paths(index);
    let filled = with_files_from(empty, index.files, 0);
    files_keep_bounds(empty, index.files, 0);
    projected_packages_are_few(index.cargo.packages);
    bounded_keeps(filled);
    bounded_keeps(counted(bounded(filled), omissions));
}

/// The inventory of an index: the first paths of each part that fit, and the packages.
pub fn inventory(index: &RepositoryMapIndex) -> (r: RepositoryInventory)
    requires
        countable(index.deep_view()),
    ensures
        r.deep_view() == inventory_of(index.deep_view()),
{
    proof {
        inventory_is_small(index.deep_view());
    }
    let omissions: u64 = omitted_file_count(&index.omissions);
    let mut result = empty_inventory(index);
    add_files(&mut result, index);
    bound_inventory(&mut result);
    update_inventory_counts(&mut result, omissions);
    bound_inventory(&mut result);
    update_inventory_counts(&mut result, omissions);
    result
}

fn visible_paths(paths: &Vec<String>) -> (r: Vec<String>)
    ensures
        r.deep_view() == visible_from(paths.deep_view(), 0),
        r@.len() <= paths@.len(),
{
    let ghost all = paths.deep_view();
    let mut out: Vec<String> = Vec::new();
    let mut i: usize = 0;
    while i < paths.len()
        invariant
            i <= paths@.len(),
            all == paths.deep_view(),
            out@.len() <= i,
            visible_from(all, 0) =~= out.deep_view() + visible_from(all, i as int),
        decreases paths@.len() - i,
    {
        assert(all[i as int] == paths@[i as int]@);
        if !is_hidden_path(paths[i].as_str()) {
            list::push(&mut out, text::copy(paths[i].as_str()));
        }
        i += 1;
    }
    assert(out.deep_view() =~= visible_from(all, 0));
    out
}

/// The inventory of an index without hidden paths, as a listing that skips hidden files
/// would show it.
pub fn visible_inventory(index: &RepositoryMapIndex) -> (r: RepositoryInventory)
    requires
        countable(index.deep_view()),
    ensures
        r.deep_view() == visible_inventory_of(index.deep_view()),
{
    proof {
        inventory_is_small(index.deep_view());
    }
    let omissions: u64 = omitted_file_count(&index.omissions);
    let mut result = inventory(index);
    let source_paths = visible_paths(&result.source_paths);
    let test_paths = visible_paths(&result.test_paths);
    let manifest_paths = visible_paths(&result.manifest_paths);
    let configuration_paths = visible_paths(&result.configuration_paths);
    assert(source_paths.deep_view().len() <= result.source_paths.deep_view().len());
    assert(test_paths.deep_view().len() <= result.test_paths.deep_view().len());
    assert(manifest_paths.deep_view().len() <= result.manifest_paths.deep_view().len());
    assert(configuration_paths.deep_view().len() <= result.configuration_paths.deep_view().len());
    result.source_paths = source_paths;
    result.test_paths = test_paths;
    result.manifest_paths = manifest_paths;
    result.configuration_paths = configuration_paths;
    update_inventory_counts(&mut result, omissions);
    proof {
        bounded_keeps(result.deep_view());
    }
    bound_inventory(&mut result);
    update_inventory_counts(&mut result, omissions);
    result
}

/// The bytes of a listing of the files that are not hidden, one path in a line.
pub fn estimated_visible_file_list_bytes(index: &RepositoryMapIndex) -> (r: usize)
    requires
        visible_bytes_from(index.deep_view().files, 0) <= usize::MAX,
    ensures
        r == visible_bytes_from(index.deep_view().files, 0),
{
    let ghost all = index.files.deep_view();
    let mut sum: usize = 0;
    let mut i: usize = 0;
    while i < index.files.len()
        invariant
            i <= index.files@.len(),
            all == index.files.deep_view(),
            visible_bytes_from(all, 0) <= usize::MAX,
            visible_bytes_from(all, 0) == sum + visible_bytes_from(all, i as int),
        decreases index.files@.len() - i,
    {
        assert(all[i as int] == index.files@[i as int].deep_view());
        let path = index.files[i].path.as_str();
        if !is_hidden_path(path) {
            sum = sum + (text::count_bytes(path) + 1);
        }
        i += 1;
    }
    sum
}

/// What an inventory shows and what it counts as left out are all that the index and its
/// omissions speak of; it is complete exactly if nothing was left out.
pub proof fn inventories_account_for_everything(index: RepositoryMapIndexModel)
    ensures
        ({
            let shown = inventory_of(index);
            &&& shown.projected_files == path_count(shown)
            &&& shown.projected_files + shown.omitted_files == index.files.len()
                + repository_map::omitted_files(index.omissions)
            &&& shown.projection_complete <==> (shown.omitted_files == 0 && shown.omitted_packages
                == 0 && shown.omitted_targets == 0)
        }),
{
    inventory_is_small(index);
}

/// No more paths, packages and targets are shown than the bounds say.
pub proof fn inventories_are_bounded(index: RepositoryMapIndexModel)
    ensures
        small(inventory_of(index)),
        small(visible_inventory_of(index)),
{
    inventory_is_small(index);
    let omissions = repository_map::omitted_files(index.omissions);
    let all = inventory_of(index);
    visible_is_no_longer(all.source_paths, 0);
    visible_is_no_longer(all.test_paths, 0);
    visible_is_no_longer(all.manifest_paths, 0);
    visible_is_no_longer(all.configuration_paths, 0);
    let visible = RepositoryInventoryModel {
        source_paths: visible_from(all.source_paths, 0),
        test_paths: visible_from(all.test_paths, 0),
        manifest_paths: visible_from(all.manifest_paths, 0),
        configuration_paths: visible_from(all.configuration_paths, 0),
        ..all
    };
    bounded_keeps(counted(visible, omissions));
}

proof fn visible_is_no_longer(paths: Seq<Seq<char>>, i: int)
    requires
        0 <= i <= paths.len(),
    ensures
        visible_from(paths, i).len() <= paths.len() - i,
        forall|k: int|
            0 <= k < visible_from(paths, i).len() ==> !repository_map::hidden(#[trigger] visible_from(paths, i)[k]),
    decreases paths.len() - i,
{
    if i < paths.len() {
        visible_is_no_longer(paths, i + 1);
        let rest = visible_from(paths, i + 1);
        let all = visible_from(paths, i);
        assert forall|k: int| 0 <= k < all.len() implies !repository_map::hidden(#[trigger] all[k]) by {
            if repository_map::hidden(paths[i]) {
                assert(all[k] == rest[k]);
            } else if k > 0 {
                assert(all[k] == rest[k - 1]);
            }
        }
    }
}

/// The bytes of an inventory are within the bound where the last update of its counts
/// changes none of them, unless it shows nothing at all.
pub proof fn settled_inventories_fit(index: RepositoryMapIndexModel)
    requires
        ({
            let omissions = repository_map::omitted_files(index.omissions);
            let filled = with_files_from(without_paths(index), index.files, 0);
            let second = bounded(counted(bounded(filled), omissions));
            counted(second, omissions) == second
        }),
    ensures
        bytes_of(inventory_of(index)).len() <= MAX_INVENTORY_BYTES || (path_count(
            inventory_of(index),
        ) == 0 && inventory_of(index).packages.len() == 0),
{
    let omissions = repository_map::omitted_files(index.omissions);
    let filled = with_files_from(without_paths(index), index.files, 0);
    bounded_keeps(counted(bounded(filled), omissions));
}

/// The lists of paths of one inventory are initial segments of those of another.
pub open spec fn cut_short(
    value: RepositoryInventoryModel,
    whole: RepositoryInventoryModel,
) -> bool {
    &&& value.source_paths.is_prefix_of(whole.source_paths)
    &&& value.test_paths.is_prefix_of(whole.test_paths)
    &&& value.manifest_paths.is_prefix_of(whole.manifest_paths)
    &&& value.configuration_paths.is_prefix_of(whole.configuration_paths)
}

proof fn shrunk_is_cut_short(value: RepositoryInventoryModel, whole: RepositoryInventoryModel)
    requires
        cut_short(value, whole),
    ensures
        shrunk(value) matches Some(next) ==> cut_short(next, whole) && next.indexed_files
            == value.indexed_files,
{
    if let Some(next) = shrunk(value) {
        assert(next.source_paths =~= whole.source_paths.subrange(
            0,
            next.source_paths.len() as int,
        ));
        assert(next.test_paths =~= whole.test_paths.subrange(0, next.test_paths.len() as int));
        assert(next.manifest_paths =~= whole.manifest_paths.subrange(
            0,
            next.manifest_paths.len() as int,
        ));
        assert(next.configuration_paths =~= whole.configuration_paths.subrange(
            0,
            next.configuration_paths.len() as int,
        ));
    }
}

proof fn bounded_is_cut_short(value: RepositoryInventoryModel, whole: RepositoryInventoryModel)
    requires
        cut_short(value, whole),
    ensures
        cut_short(bounded(value), whole),
        bounded(value).indexed_files == value.indexed_files,
    decreases weight(value),
{
    if bytes_of(value).len() > MAX_INVENTORY_BYTES {
        if let Some(next) = shrunk(value) {
            shrunk_is_lighter(value);
            shrunk_is_cut_short(value, whole);
            bounded_is_cut_short(next, whole);
        }
    }
}

/// No path in a list is hidden.
pub open spec fn none_hidden(paths: Seq<Seq<char>>) -> bool {
    forall|k: int| 0 <= k < paths.len() ==> !repository_map::hidden(#[trigger] paths[k])
}

proof fn prefixes_hide_nothing(paths: Seq<Seq<char>>, whole: Seq<Seq<char>>)
    requires
        paths.is_prefix_of(whole),
        none_hidden(whole),
    ensures
        none_hidden(paths),
{
    assert forall|k: int| 0 <= k < paths.len() implies !repository_map::hidden(
        #[trigger] paths[k],
    ) by {
        assert(paths[k] == whole[k]);
    }
}

/// The inventory without hidden paths shows none of them: each of its lists is an initial
/// segment of that of the whole inventory without its hidden paths. What it shows less than
/// the whole inventory it counts as left out besides.
pub proof fn visible_inventories_are_cut_short(index: RepositoryMapIndexModel)
    ensures
        ({
            let whole = inventory_of(index);
            let shown = visible_inventory_of(index);
            &&& none_hidden(shown.source_paths) && none_hidden(shown.test_paths) && none_hidden(
                shown.manifest_paths,
            ) && none_hidden(shown.configuration_paths)
            &&& shown.source_paths.is_prefix_of(visible_from(whole.source_paths, 0))
            &&& shown.test_paths.is_prefix_of(visible_from(whole.test_paths, 0))
            &&& shown.manifest_paths.is_prefix_of(visible_from(whole.manifest_paths, 0))
            &&& shown.configuration_paths.is_prefix_of(visible_from(whole.configuration_paths, 0))
            &&& shown.projected_files == path_count(shown)
            &&& shown.indexed_files == whole.indexed_files
            &&& shown.omitted_files - whole.omitted_files == whole.projected_files
                - shown.projected_files
        }),
{
    inventory_is_small(index);
    let omissions = repository_map::omitted_files(index.omissions);
    let whole = inventory_of(index);
    visible_is_no_longer(whole.source_paths, 0);
    visible_is_no_longer(whole.test_paths, 0);
    visible_is_no_longer(whole.manifest_paths, 0);
    visible_is_no_longer(whole.configuration_paths, 0);
    let visible = RepositoryInventoryModel {
        source_paths: visible_from(whole.source_paths, 0),
        test_paths: visible_from(whole.test_paths, 0),
        manifest_paths: visible_from(whole.manifest_paths, 0),
        configuration_paths: visible_from(whole.configuration_paths, 0),
        ..whole
    };
    let counted_paths = counted(visible, omissions);
    assert(counted_paths.source_paths =~= visible.source_paths.subrange(
        0,
        visible.source_paths.len() as int,
    ));
    assert(counted_paths.test_paths =~= visible.test_paths.subrange(
        0,
        visible.test_paths.len() as int,
    ));
    assert(counted_paths.manifest_paths =~= visible.manifest_paths.subrange(
        0,
        visible.manifest_paths.len() as int,
    ));
    assert(counted_paths.configuration_paths =~= visible.configuration_paths.subrange(
        0,
        visible.configuration_paths.len() as int,
    ));
    bounded_is_cut_short(counted_paths, visible);
    let shown = visible_inventory_of(index);
    prefixes_hide_nothing(shown.source_paths, visible.source_paths);
    prefixes_hide_nothing(shown.test_paths, visible.test_paths);
    prefixes_hide_nothing(shown.manifest_paths, visible.manifest_paths);
    prefixes_hide_nothing(shown.configuration_paths, visible.configuration_paths);
}

} // verus!
