//! The packages of a workspace, as Cargo describes them.

use vstd::prelude::*;
use crate::list;
use crate::ranked;
use crate::ranked::Ranked;
use crate::repository_map::{
    CargoDependencyEdge, CargoDependencyEdgeModel, CargoFacts, CargoFactsModel, CargoPackage,
    CargoPackageModel, CargoTarget, CargoTargetModel, FileFact, FileFactModel,
};
use crate::text;

verus! {

broadcast use vstd::string::group_string_axioms;

/// A target as Cargo describes it.
#[derive(Clone, Debug)]
pub struct SourceTarget {
    pub name: String,
    pub kinds: Vec<String>,
}

/// What a `SourceTarget` says.
pub struct SourceTargetModel {
    pub name: Seq<char>,
    pub kinds: Seq<Seq<char>>,
}

impl DeepView for SourceTarget {
    type V = SourceTargetModel;

    open spec fn deep_view(&self) -> SourceTargetModel {
        SourceTargetModel {
            name: self.name@,
            kinds: self.kinds.deep_view(),
        }
    }
}

/// A package as Cargo describes it.
#[derive(Clone, Debug)]
pub struct SourcePackage {
    pub id: String,
    pub name: String,
    pub version: String,
    pub targets: Vec<SourceTarget>,
    pub dependencies: Vec<String>,
}

/// What a `SourcePackage` says.
pub struct SourcePackageModel {
    pub id: Seq<char>,
    pub name: Seq<char>,
    pub version: Seq<char>,
    pub targets: Seq<SourceTargetModel>,
    pub dependencies: Seq<Seq<char>>,
}

impl DeepView for SourcePackage {
    type V = SourcePackageModel;

    open spec fn deep_view(&self) -> SourcePackageModel {
        SourcePackageModel {
            id: self.id@,
            name: self.name@,
            version: self.version@,
            targets: self.targets.deep_view(),
            dependencies: self.dependencies.deep_view(),
        }
    }
}

/// A workspace as Cargo describes it: its packages, and which of them are its members.
#[derive(Clone, Debug)]
pub struct SourceWorkspace {
    pub members: Vec<String>,
    pub packages: Vec<SourcePackage>,
}

/// What a `SourceWorkspace` says.
pub struct SourceWorkspaceModel {
    pub members: Seq<Seq<char>>,
    pub packages: Seq<SourcePackageModel>,
}

impl DeepView for SourceWorkspace {
    type V = SourceWorkspaceModel;

    open spec fn deep_view(&self) -> SourceWorkspaceModel {
        SourceWorkspaceModel {
            members: self.members.deep_view(),
            packages: self.packages.deep_view(),
        }
    }
}

impl Ranked for CargoTarget {
    open spec fn before(a: CargoTargetModel, b: CargoTargetModel) -> bool {
        text::before(a.name, b.name) || (a.name == b.name && text::list_before(a.kinds, b.kinds))
    }

    fn comes_before(&self, other: &CargoTarget) -> (r: bool) {
        text::precedes(self.name.as_str(), other.name.as_str()) || (text::same_text(
            self.name.as_str(),
            other.name.as_str(),
        ) && text::list_precedes(&self.kinds, &other.kinds))
    }

    fn is_same(&self, other: &CargoTarget) -> (r: bool) {
        text::same_text(self.name.as_str(), other.name.as_str()) && text::same_list(
            &self.kinds,
            &other.kinds,
        )
    }

    proof fn before_is_an_order(a: CargoTargetModel, b: CargoTargetModel, c: CargoTargetModel) {
        text::three_are_ordered(a.name, b.name, c.name);
        text::three_lists_are_ordered(a.kinds, b.kinds, c.kinds);
    }
}

impl Ranked for CargoPackage {
    open spec fn before(a: CargoPackageModel, b: CargoPackageModel) -> bool {
        text::before(a.name, b.name) || (a.name == b.name && text::before(a.version, b.version))
    }

    fn comes_before(&self, other: &CargoPackage) -> (r: bool) {
        text::precedes(self.name.as_str(), other.name.as_str()) || (text::same_text(
            self.name.as_str(),
            other.name.as_str(),
        ) && text::precedes(self.version.as_str(), other.version.as_str()))
    }

    fn is_same(&self, other: &CargoPackage) -> (r: bool) {
        text::same_text(self.name.as_str(), other.name.as_str()) && text::same_text(
            self.version.as_str(),
            other.version.as_str(),
        ) && ranked::same_items(&self.targets, &other.targets)
    }

    proof fn before_is_an_order(a: CargoPackageModel, b: CargoPackageModel, c: CargoPackageModel) {
        text::three_are_ordered(a.name, b.name, c.name);
        text::three_are_ordered(a.version, b.version, c.version);
    }
}

impl Ranked for CargoDependencyEdge {
    open spec fn before(a: CargoDependencyEdgeModel, b: CargoDependencyEdgeModel) -> bool {
        text::before(a.package, b.package) || (a.package == b.package && text::before(
            a.dependency,
            b.dependency,
        ))
    }

    fn comes_before(&self, other: &CargoDependencyEdge) -> (r: bool) {
        text::precedes(self.package.as_str(), other.package.as_str()) || (text::same_text(
            self.package.as_str(),
            other.package.as_str(),
        ) && text::precedes(self.dependency.as_str(), other.dependency.as_str()))
    }

    fn is_same(&self, other: &CargoDependencyEdge) -> (r: bool) {
        text::same_text(self.package.as_str(), other.package.as_str()) && text::same_text(
            self.dependency.as_str(),
            other.dependency.as_str(),
        )
    }

    proof fn before_is_an_order(
        a: CargoDependencyEdgeModel,
        b: CargoDependencyEdgeModel,
        c: CargoDependencyEdgeModel,
    ) {
        text::three_are_ordered(a.package, b.package, c.package);
        text::three_are_ordered(a.dependency, b.dependency, c.dependency);
    }
}

/// A target with its kinds in order.
pub open spec fn target_of(target: SourceTargetModel) -> CargoTargetModel {
    CargoTargetModel { name: target.name, kinds: ranked::ordered::<String>(target.kinds) }
}

/// The targets of a package in order.
pub open spec fn targets_of(targets: Seq<SourceTargetModel>) -> Seq<CargoTargetModel> {
    ranked::ordered::<CargoTarget>(Seq::new(targets.len(), |i: int| target_of(targets[i])))
}

pub open spec fn package_of(package: SourcePackageModel) -> CargoPackageModel {
    CargoPackageModel {
        name: package.name,
        version: package.version,
        targets: targets_of(package.targets),
    }
}

/// The name of a package among the edges.
pub open spec fn package_key(package: SourcePackageModel) -> Seq<char> {
    package.name + "@"@ + package.version
}

/// The edges from a package to what it depends on.
pub open spec fn edges_of(package: SourcePackageModel) -> Seq<CargoDependencyEdgeModel> {
    Seq::new(
        package.dependencies.len(),
        |i: int|
            CargoDependencyEdgeModel {
                package: package_key(package),
                dependency: package.dependencies[i],
            },
    )
}

/// The members of the workspace among the packages from `i` on.
pub open spec fn member_packages_from(workspace: SourceWorkspaceModel, i: int) -> Seq<
    SourcePackageModel,
>
    decreases workspace.packages.len() - i,
{
    if i < 0 || i >= workspace.packages.len() {
        seq![]
    } else if workspace.members.contains(workspace.packages[i].id) {
        seq![workspace.packages[i]] + member_packages_from(workspace, i + 1)
    } else {
        member_packages_from(workspace, i + 1)
    }
}

pub open spec fn packages_of(packages: Seq<SourcePackageModel>) -> Seq<CargoPackageModel> {
    Seq::new(packages.len(), |i: int| package_of(packages[i]))
}

/// The edges of the packages from `i` on.
pub open spec fn all_edges_from(packages: Seq<SourcePackageModel>, i: int) -> Seq<
    CargoDependencyEdgeModel,
>
    decreases packages.len() - i,
{
    if i < 0 || i >= packages.len() {
        seq![]
    } else {
        edges_of(packages[i]) + all_edges_from(packages, i + 1)
    }
}

/// The facts that a description of the workspace gives, and those without one.
pub open spec fn cargo_facts_of(workspace: Option<SourceWorkspaceModel>) -> CargoFactsModel {
    match workspace {
        None => CargoFactsModel { available: false, packages: seq![], dependency_edges: seq![] },
        Some(workspace) => {
            let members = member_packages_from(workspace, 0);
            CargoFactsModel {
                available: true,
                packages: ranked::ordered::<CargoPackage>(packages_of(members)),
                dependency_edges: ranked::distinct(
                    ranked::ordered::<CargoDependencyEdge>(all_edges_from(members, 0)),
                ),
            }
        },
    }
}

fn read_targets(targets: &Vec<SourceTarget>) -> (r: Vec<CargoTarget>)
    ensures
        r.deep_view() == targets_of(targets.deep_view()),
{
    let ghost all = targets.deep_view();
    let ghost wanted = Seq::new(all.len(), |i: int| target_of(all[i]));
    let mut out: Vec<CargoTarget> = Vec::new();
    let mut i: usize = 0;
    while i < targets.len()
        invariant
            i <= targets@.len(),
            all == targets.deep_view(),
            wanted == Seq::new(all.len(), |i: int| target_of(all[i])),
            out.deep_view() =~= wanted.take(i as int),
        decreases targets@.len() - i,
    {
        assert(all[i as int] == targets@[i as int].deep_view());
        let mut kinds = text::copy_list(&targets[i].kinds);
        ranked::sort(&mut kinds);
        list::push(&mut out, CargoTarget { name: text::copy(targets[i].name.as_str()), kinds });
        i += 1;
    }
    assert(wanted.take(all.len() as int) =~= wanted);
    ranked::sort(&mut out);
    out
}

fn is_member(members: &Vec<String>, id: &str) -> (r: bool)
    ensures
        r == members.deep_view().contains(id@),
{
    let ghost all = members.deep_view();
    let mut i: usize = 0;
    while i < members.len()
        invariant
            i <= members@.len(),
            all == members.deep_view(),
            forall|k: int| 0 <= k < i ==> all[k] != id@,
        decreases members@.len() - i,
    {
        assert(all[i as int] == members@[i as int]@);
        if text::same_text(members[i].as_str(), id) {
            return true;
        }
        i += 1;
    }
    false
}

fn add_edges(package: &SourcePackage, edges: &mut Vec<CargoDependencyEdge>)
    ensures
        final(edges).deep_view() == old(edges).deep_view() + edges_of(package.deep_view()),
{
    let ghost before = edges.deep_view();
    let ghost all = edges_of(package.deep_view());
    let front = text::concat(package.name.as_str(), "@");
    let key = text::concat(front.as_str(), package.version.as_str());
    let mut i: usize = 0;
    while i < package.dependencies.len()
        invariant
            i <= package.dependencies@.len(),
            all == edges_of(package.deep_view()),
            all.len() == package.dependencies@.len(),
            key@ == package_key(package.deep_view()),
            edges.deep_view() =~= before + all.take(i as int),
        decreases package.dependencies@.len() - i,
    {
        assert(package.dependencies.deep_view()[i as int] == package.dependencies@[i as int]@);
        list::push(
            edges,
            CargoDependencyEdge {
                package: text::copy(key.as_str()),
                dependency: text::copy(package.dependencies[i].as_str()),
            },
        );
        i += 1;
    }
    assert(all.take(all.len() as int) =~= all);
}

/// The facts that a description of the workspace gives. There is none where Cargo could
/// not be asked.
pub fn collect_cargo_facts(workspace: &Option<SourceWorkspace>) -> (r: CargoFacts)
    ensures
        r.deep_view() == cargo_facts_of(workspace.deep_view()),
{
    let workspace = match workspace {
        Some(workspace) => workspace,
        None => {
            return CargoFacts::default();
        },
    };
    let ghost model = workspace.deep_view();
    let mut packages: Vec<CargoPackage> = Vec::new();
    let mut edges: Vec<CargoDependencyEdge> = Vec::new();
    let ghost mut members: Seq<SourcePackageModel> = seq![];
    assert(packages.deep_view() =~= packages_of(members));
    assert(edges.deep_view() =~= all_edges_from(members, 0));
    let mut i: usize = 0;
    while i < workspace.packages.len()
        invariant
            i <= workspace.packages@.len(),
            model == workspace.deep_view(),
            member_packages_from(model, 0) =~= members + member_packages_from(model, i as int),
            packages.deep_view() == packages_of(members),
            edges.deep_view() == all_edges_from(members, 0),
        decreases workspace.packages@.len() - i,
    {
        assert(model.packages[i as int] == workspace.packages@[i as int].deep_view());
        let package = &workspace.packages[i];
        if is_member(&workspace.members, package.id.as_str()) {
            list::push(
                &mut packages,
                CargoPackage {
                    name: text::copy(package.name.as_str()),
                    version: text::copy(package.version.as_str()),
                    targets: read_targets(&package.targets),
                },
            );
            add_edges(package, &mut edges);
            proof {
                edges_grow(members, package.deep_view(), 0);
                members = members.push(package.deep_view());
                assert(packages.deep_view() =~= packages_of(members));
            }
        }
        i += 1;
    }
    assert(members =~= member_packages_from(model, 0));
    ranked::sort(&mut packages);
    ranked::sort(&mut edges);
    ranked::dedup(&mut edges);
    CargoFacts { available: true, packages, dependency_edges: edges }
}

proof fn edges_grow(packages: Seq<SourcePackageModel>, next: SourcePackageModel, i: int)
    requires
        0 <= i <= packages.len(),
    ensures
        all_edges_from(packages.push(next), i) =~= all_edges_from(packages, i) + edges_of(next),
    decreases packages.len() - i,
{
    if i < packages.len() {
        edges_grow(packages, next, i + 1);
    } else {
        reveal_with_fuel(all_edges_from, 2);
    }
}

/// A file that Cargo reads.
pub open spec fn cargo_input(path: Seq<char>) -> bool {
    text::base_name(path) == "Cargo.toml"@ || text::base_name(path) == "Cargo.lock"@
}

/// The paths and digests of the files that Cargo reads, from `i` on.
pub open spec fn cargo_inputs_from(files: Seq<FileFactModel>, i: int) -> Seq<
    (Seq<char>, Option<Seq<char>>),
>
    decreases files.len() - i,
{
    if i < 0 || i >= files.len() {
        seq![]
    } else if cargo_input(files[i].path) {
        seq![(files[i].path, files[i].sha256)] + cargo_inputs_from(files, i + 1)
    } else {
        cargo_inputs_from(files, i + 1)
    }
}

/// Every file that Cargo reads, from `i` on, has a digest.
pub open spec fn inputs_have_digests_from(files: Seq<FileFactModel>, i: int) -> bool
    decreases files.len() - i,
{
    if i < 0 || i >= files.len() {
        true
    } else {
        (cargo_input(files[i].path) ==> files[i].sha256 is Some) && inputs_have_digests_from(
            files,
            i + 1,
        )
    }
}

fn is_cargo_input(file: &FileFact) -> (r: bool)
    ensures
        r == cargo_input(file.path@),
{
    let chars = text::to_chars(file.path.as_str());
    let name = text::file_name(chars.as_slice());
    text::is(name, "Cargo.toml") || text::is(name, "Cargo.lock")
}

fn next_input(files: &Vec<FileFact>, start: usize) -> (r: Option<usize>)
    requires
        start <= files@.len(),
    ensures
        match r {
            Some(i) => start <= i < files@.len() && cargo_input(files@[i as int].path@)
                && cargo_inputs_from(files.deep_view(), start as int) == cargo_inputs_from(
                files.deep_view(),
                i as int,
            ),
            None => cargo_inputs_from(files.deep_view(), start as int).len() == 0,
        },
{
    let ghost all = files.deep_view();
    let mut i: usize = start;
    while i < files.len()
        invariant
            start <= i <= files@.len(),
            all == files.deep_view(),
            cargo_inputs_from(all, start as int) == cargo_inputs_from(all, i as int),
        decreases files@.len() - i,
    {
        assert(all[i as int] == files@[i as int].deep_view());
        if is_cargo_input(&files[i]) {
            return Some(i);
        }
        i += 1;
    }
    None
}

/// Something that Cargo reads differs between two lists of files.
pub fn cargo_inputs_changed(old_files: &Vec<FileFact>, current: &Vec<FileFact>) -> (r: bool)
    ensures
        r == (cargo_inputs_from(old_files.deep_view(), 0) != cargo_inputs_from(
            current.deep_view(),
            0,
        )),
{
    let ghost left = old_files.deep_view();
    let ghost right = current.deep_view();
    let ghost mut same: Seq<(Seq<char>, Option<Seq<char>>)> = seq![];
    let left_count: usize = old_files.len();
    let right_count: usize = current.len();
    let mut i: usize = 0;
    let mut j: usize = 0;
    loop
        invariant
            i <= old_files@.len(),
            j <= current@.len(),
            left_count == old_files@.len(),
            right_count == current@.len(),
            left == old_files.deep_view(),
            right == current.deep_view(),
            cargo_inputs_from(left, 0) =~= same + cargo_inputs_from(left, i as int),
            cargo_inputs_from(right, 0) =~= same + cargo_inputs_from(right, j as int),
        decreases old_files@.len() - i,
    {
        let ghost left_rest = cargo_inputs_from(left, i as int);
        let ghost right_rest = cargo_inputs_from(right, j as int);
        match (next_input(old_files, i), next_input(current, j)) {
            (None, None) => {
                assert(cargo_inputs_from(left, 0) =~= cargo_inputs_from(right, 0));
                return false;
            },
            (Some(a), Some(b)) => {
                assert(left[a as int] == old_files@[a as int].deep_view());
                assert(right[b as int] == current@[b as int].deep_view());
                let file = &old_files[a];
                let other = &current[b];
                if !text::same_text(file.path.as_str(), other.path.as_str()) || !text::same_option(
                    &file.sha256,
                    &other.sha256,
                ) {
                    assert(left_rest[0] != right_rest[0]);
                    assert(cargo_inputs_from(left, 0)[same.len() as int] == left_rest[0]);
                    assert(cargo_inputs_from(right, 0)[same.len() as int] == right_rest[0]);
                    return true;
                }
                proof {
                    same = same.push(left_rest[0]);
                }
                i = a + 1;
                j = b + 1;
            },
            (a, b) => {
                assert(a is None <==> left_rest.len() == 0);
                assert(b is None <==> right_rest.len() == 0);
                assert(cargo_inputs_from(left, 0).len() == same.len() + left_rest.len());
                assert(cargo_inputs_from(right, 0).len() == same.len() + right_rest.len());
                return true;
            },
        }
    }
}

/// Every file that Cargo reads has a digest.
pub fn cargo_inputs_have_digests(files: &Vec<FileFact>) -> (r: bool)
    ensures
        r == inputs_have_digests_from(files.deep_view(), 0),
{
    let ghost all = files.deep_view();
    let mut i: usize = 0;
    while i < files.len()
        invariant
            i <= files@.len(),
            all == files.deep_view(),
            inputs_have_digests_from(all, 0) == inputs_have_digests_from(all, i as int),
        decreases files@.len() - i,
    {
        assert(all[i as int] == files@[i as int].deep_view());
        if is_cargo_input(&files[i]) && files[i].sha256.is_none() {
            return false;
        }
        i += 1;
    }
    true
}

} // verus!
