//! The index that is kept: what is written of it, and what is loaded again.

use vstd::prelude::*;
use crate::json;
use crate::json::writing::{
    arrays_are_told_apart, counted, counts_are_told_apart, texts_are_told_apart,
    values_are_told_apart,
};
use crate::json::{JsonModel, ToJson};
use crate::repository_map;
use crate::repository_map::refreshing;
use crate::repository_map::refreshing::RefreshModel;
use crate::repository_map::state;
use crate::repository_map::{
    CargoDependencyEdge, CargoDependencyEdgeModel, CargoFacts, CargoFactsModel, CargoPackage,
    CargoPackageModel, CargoTarget, CargoTargetModel, Completeness, DefinitionFact,
    DefinitionFactModel, DefinitionKind, FileClassification, FileFact, FileFactModel, ImportFact,
    ImportFactModel, LanguageClass, ModuleFact, ModuleFactModel, OmissionCounts,
    OmissionCountsModel, ReferenceFact, ReferenceFactModel, RepositoryMapIndex,
    RepositoryMapIndexModel, RustFileFacts, RustFileFactsModel, RustOmissions, RustOmissionsModel,
    RustParseStatus, RustParseStatusModel, TestFact, TestFactModel, Visibility, VisibilityModel,
    INDEX_SCHEMA, MAX_INDEX_BYTES,
};

verus! {

proof fn completenesses_are_told_apart(a: Completeness, b: Completeness)
    ensures
        counted(Completeness::json(a)),
        Completeness::json(a) == Completeness::json(b) ==> a == b,
{
    reveal_strlit("complete");
    reveal_strlit("bounded");
    reveal_strlit("cargo_unavailable");
    reveal_strlit("bounded_and_cargo_unavailable");
    if a.label() == b.label() {
        assert(a.label().len() == b.label().len());
        assert(a.label()[0] == b.label()[0]);
        assert(a.label()[2] == b.label()[2]);
        assert(a.label()[3] == b.label()[3]);
    }
}

proof fn languages_are_told_apart(a: LanguageClass, b: LanguageClass)
    ensures
        counted(LanguageClass::json(a)),
        LanguageClass::json(a) == LanguageClass::json(b) ==> a == b,
{
    reveal_strlit("rust");
    reveal_strlit("toml");
    reveal_strlit("text");
    reveal_strlit("other");
    if a.label() == b.label() {
        assert(a.label().len() == b.label().len());
        assert(a.label()[0] == b.label()[0]);
        assert(a.label()[2] == b.label()[2]);
        assert(a.label()[3] == b.label()[3]);
    }
}

proof fn classes_are_told_apart(a: FileClassification, b: FileClassification)
    ensures
        counted(FileClassification::json(a)),
        FileClassification::json(a) == FileClassification::json(b) ==> a == b,
{
    reveal_strlit("source");
    reveal_strlit("test");
    reveal_strlit("manifest");
    reveal_strlit("configuration");
    reveal_strlit("other");
    if a.label() == b.label() {
        assert(a.label().len() == b.label().len());
        assert(a.label()[0] == b.label()[0]);
        assert(a.label()[2] == b.label()[2]);
        assert(a.label()[3] == b.label()[3]);
    }
}

proof fn kinds_are_told_apart(a: DefinitionKind, b: DefinitionKind)
    ensures
        counted(DefinitionKind::json(a)),
        DefinitionKind::json(a) == DefinitionKind::json(b) ==> a == b,
{
    reveal_strlit("function");
    reveal_strlit("struct");
    reveal_strlit("enum");
    reveal_strlit("trait");
    reveal_strlit("type");
    reveal_strlit("const");
    reveal_strlit("static");
    reveal_strlit("union");
    reveal_strlit("macro");
    if a.label() == b.label() {
        assert(a.label().len() == b.label().len());
        assert(a.label()[0] == b.label()[0]);
        assert(a.label()[2] == b.label()[2]);
        assert(a.label()[3] == b.label()[3]);
    }
}

proof fn visibilities_are_told_apart(a: VisibilityModel, b: VisibilityModel)
    ensures
        counted(Visibility::json(a)),
        Visibility::json(a) == Visibility::json(b) ==> a == b,
{
    reveal_strlit("private");
    reveal_strlit("public");
    reveal_with_fuel(counted, 3);
    assert("private"@.len() != "public"@.len());
    if let VisibilityModel::Restricted { scope } = a {
        let inner = seq![("scope"@, JsonModel::Text(scope))];
        assert(counted(JsonModel::Object(inner)));
        if let VisibilityModel::Restricted { scope } = b {
            let x = Visibility::json(a)->Object_0;
            let y = Visibility::json(b)->Object_0;
            if x == y {
                assert(x[0] == y[0]);
                assert(x[0].1->Object_0[0] == y[0].1->Object_0[0]);
            }
        }
    }
}

proof fn modules_are_told_apart(a: ModuleFactModel, b: ModuleFactModel)
    ensures
        counted(ModuleFact::json(a)),
        ModuleFact::json(a) == ModuleFact::json(b) ==> a == b,
{
    let x = ModuleFact::json(a)->Object_0;
    let y = ModuleFact::json(b)->Object_0;
    visibilities_are_told_apart(a.visibility, b.visibility);
    counts_are_told_apart(a.line as nat, b.line as nat);
    assert forall|i: int| 0 <= i < x.len() implies counted((#[trigger] x[i]).1) by {}
    if x == y {
        assert(x[0] == y[0]);
        assert(x[1] == y[1]);
        assert(x[2] == y[2]);
        assert(x[3] == y[3]);
    }
}

proof fn definitions_are_told_apart(a: DefinitionFactModel, b: DefinitionFactModel)
    ensures
        counted(DefinitionFact::json(a)),
        DefinitionFact::json(a) == DefinitionFact::json(b) ==> a == b,
{
    let x = DefinitionFact::json(a)->Object_0;
    let y = DefinitionFact::json(b)->Object_0;
    kinds_are_told_apart(a.kind, b.kind);
    visibilities_are_told_apart(a.visibility, b.visibility);
    counts_are_told_apart(a.line as nat, b.line as nat);
    assert forall|i: int| 0 <= i < x.len() implies counted((#[trigger] x[i]).1) by {}
    if x == y {
        assert(x[0] == y[0]);
        assert(x[1] == y[1]);
        assert(x[2] == y[2]);
        assert(x[3] == y[3]);
    }
}

proof fn imports_are_told_apart(a: ImportFactModel, b: ImportFactModel)
    ensures
        counted(ImportFact::json(a)),
        ImportFact::json(a) == ImportFact::json(b) ==> a == b,
{
    let x = ImportFact::json(a)->Object_0;
    let y = ImportFact::json(b)->Object_0;
    counts_are_told_apart(a.line as nat, b.line as nat);
    assert forall|i: int| 0 <= i < x.len() implies counted((#[trigger] x[i]).1) by {}
    if x == y {
        assert(x.len() == y.len());
        assert(x[0] == y[0]);
        assert(x[1] == y[1]);
        assert(x[2] == y[2]);
        if a.alias is Some {
            assert(x[3] == y[3]);
        }
    }
}

proof fn references_are_told_apart(a: ReferenceFactModel, b: ReferenceFactModel)
    ensures
        counted(ReferenceFact::json(a)),
        ReferenceFact::json(a) == ReferenceFact::json(b) ==> a == b,
{
    let x = ReferenceFact::json(a)->Object_0;
    let y = ReferenceFact::json(b)->Object_0;
    counts_are_told_apart(a.line as nat, b.line as nat);
    assert forall|i: int| 0 <= i < x.len() implies counted((#[trigger] x[i]).1) by {}
    if x == y {
        assert(x[0] == y[0]);
        assert(x[1] == y[1]);
    }
}

proof fn tests_are_told_apart(a: TestFactModel, b: TestFactModel)
    ensures
        counted(TestFact::json(a)),
        TestFact::json(a) == TestFact::json(b) ==> a == b,
{
    let x = TestFact::json(a)->Object_0;
    let y = TestFact::json(b)->Object_0;
    counts_are_told_apart(a.line as nat, b.line as nat);
    texts_are_told_apart(a.references, b.references);
    assert forall|i: int| 0 <= i < x.len() implies counted((#[trigger] x[i]).1) by {}
    if x == y {
        assert(x[0] == y[0]);
        assert(x[1] == y[1]);
        assert(x[2] == y[2]);
    }
}

proof fn rust_omissions_are_told_apart(a: RustOmissionsModel, b: RustOmissionsModel)
    ensures
        counted(RustOmissions::json(a)),
        RustOmissions::json(a) == RustOmissions::json(b) ==> a == b,
{
    let x = RustOmissions::json(a)->Object_0;
    let y = RustOmissions::json(b)->Object_0;
    counts_are_told_apart(a.symbols, b.symbols);
    counts_are_told_apart(a.imports, b.imports);
    counts_are_told_apart(a.references, b.references);
    assert forall|i: int| 0 <= i < x.len() implies counted((#[trigger] x[i]).1) by {}
    if x == y {
        assert(x[0] == y[0]);
        assert(x[1] == y[1]);
        assert(x[2] == y[2]);
    }
}

proof fn all_modules_are_told_apart(a: Seq<ModuleFactModel>, b: Seq<ModuleFactModel>)
    ensures
        counted(json::item_array::<ModuleFact>(a)),
        json::item_array::<ModuleFact>(a) == json::item_array::<ModuleFact>(b) ==> a == b,
{
    let items = json::item_array::<ModuleFact>(a)->Array_0;
    assert forall|i: int| 0 <= i < items.len() implies counted(#[trigger] items[i]) by {
        modules_are_told_apart(a[i], a[i]);
    }
    assert forall|i: int|
        0 <= i < a.len() && i < b.len() && ModuleFact::json(#[trigger] a[i]) == ModuleFact::json(
            b[i],
        ) implies a[i] == b[i] by {
        modules_are_told_apart(a[i], b[i]);
    }
    if json::item_array::<ModuleFact>(a) == json::item_array::<ModuleFact>(b) {
        arrays_are_told_apart::<ModuleFact>(a, b);
    }
}

proof fn all_definitions_are_told_apart(a: Seq<DefinitionFactModel>, b: Seq<DefinitionFactModel>)
    ensures
        counted(json::item_array::<DefinitionFact>(a)),
        json::item_array::<DefinitionFact>(a) == json::item_array::<DefinitionFact>(b) ==> a == b,
{
    let items = json::item_array::<DefinitionFact>(a)->Array_0;
    assert forall|i: int| 0 <= i < items.len() implies counted(#[trigger] items[i]) by {
        definitions_are_told_apart(a[i], a[i]);
    }
    assert forall|i: int|
        0 <= i < a.len() && i < b.len() && DefinitionFact::json(#[trigger] a[i]) == DefinitionFact::json(
            b[i],
        ) implies a[i] == b[i] by {
        definitions_are_told_apart(a[i], b[i]);
    }
    if json::item_array::<DefinitionFact>(a) == json::item_array::<DefinitionFact>(b) {
        arrays_are_told_apart::<DefinitionFact>(a, b);
    }
}

proof fn all_imports_are_told_apart(a: Seq<ImportFactModel>, b: Seq<ImportFactModel>)
    ensures
        counted(json::item_array::<ImportFact>(a)),
        json::item_array::<ImportFact>(a) == json::item_array::<ImportFact>(b) ==> a == b,
{
    let items = json::item_array::<ImportFact>(a)->Array_0;
    assert forall|i: int| 0 <= i < items.len() implies counted(#[trigger] items[i]) by {
        imports_are_told_apart(a[i], a[i]);
    }
    assert forall|i: int|
        0 <= i < a.len() && i < b.len() && ImportFact::json(#[trigger] a[i]) == ImportFact::json(
            b[i],
        ) implies a[i] == b[i] by {
        imports_are_told_apart(a[i], b[i]);
    }
    if json::item_array::<ImportFact>(a) == json::item_array::<ImportFact>(b) {
        arrays_are_told_apart::<ImportFact>(a, b);
    }
}

proof fn all_references_are_told_apart(a: Seq<ReferenceFactModel>, b: Seq<ReferenceFactModel>)
    ensures
        counted(json::item_array::<ReferenceFact>(a)),
        json::item_array::<ReferenceFact>(a) == json::item_array::<ReferenceFact>(b) ==> a == b,
{
    let items = json::item_array::<ReferenceFact>(a)->Array_0;
    assert forall|i: int| 0 <= i < items.len() implies counted(#[trigger] items[i]) by {
        references_are_told_apart(a[i], a[i]);
    }
    assert forall|i: int|
        0 <= i < a.len() && i < b.len() && ReferenceFact::json(#[trigger] a[i]) == ReferenceFact::json(
            b[i],
        ) implies a[i] == b[i] by {
        references_are_told_apart(a[i], b[i]);
    }
    if json::item_array::<ReferenceFact>(a) == json::item_array::<ReferenceFact>(b) {
        arrays_are_told_apart::<ReferenceFact>(a, b);
    }
}

proof fn all_tests_are_told_apart(a: Seq<TestFactModel>, b: Seq<TestFactModel>)
    ensures
        counted(json::item_array::<TestFact>(a)),
        json::item_array::<TestFact>(a) == json::item_array::<TestFact>(b) ==> a == b,
{
    let items = json::item_array::<TestFact>(a)->Array_0;
    assert forall|i: int| 0 <= i < items.len() implies counted(#[trigger] items[i]) by {
        tests_are_told_apart(a[i], a[i]);
    }
    assert forall|i: int|
        0 <= i < a.len() && i < b.len() && TestFact::json(#[trigger] a[i]) == TestFact::json(
            b[i],
        ) implies a[i] == b[i] by {
        tests_are_told_apart(a[i], b[i]);
    }
    if json::item_array::<TestFact>(a) == json::item_array::<TestFact>(b) {
        arrays_are_told_apart::<TestFact>(a, b);
    }
}

proof fn rust_facts_are_told_apart(a: RustFileFactsModel, b: RustFileFactsModel)
    ensures
        counted(RustFileFacts::json(a)),
        RustFileFacts::json(a) == RustFileFacts::json(b) ==> a == b,
{
    let x = RustFileFacts::json(a)->Object_0;
    let y = RustFileFacts::json(b)->Object_0;
    all_modules_are_told_apart(a.modules, b.modules);
    all_definitions_are_told_apart(a.definitions, b.definitions);
    all_imports_are_told_apart(a.imports, b.imports);
    all_references_are_told_apart(a.references, b.references);
    texts_are_told_apart(a.reference_edges, b.reference_edges);
    all_tests_are_told_apart(a.tests, b.tests);
    rust_omissions_are_told_apart(a.omissions, b.omissions);
    assert forall|i: int| 0 <= i < x.len() implies counted((#[trigger] x[i]).1) by {}
    if x == y {
        assert(x[0] == y[0]);
        assert(x[1] == y[1]);
        assert(x[2] == y[2]);
        assert(x[3] == y[3]);
        assert(x[4] == y[4]);
        assert(x[5] == y[5]);
        assert(x[6] == y[6]);
    }
}

proof fn rust_statuses_are_told_apart(a: RustParseStatusModel, b: RustParseStatusModel)
    ensures
        counted(RustParseStatus::json(a)),
        RustParseStatus::json(a) == RustParseStatus::json(b) ==> a == b,
{
    reveal_strlit("not_rust");
    reveal_strlit("parsed");
    reveal_strlit("malformed");
    reveal_strlit("oversized");
    let x = RustParseStatus::json(a)->Object_0;
    let y = RustParseStatus::json(b)->Object_0;
    if let RustParseStatusModel::Parsed { facts } = a {
        rust_facts_are_told_apart(facts, facts);
        if let RustParseStatusModel::Parsed { facts: others } = b {
            rust_facts_are_told_apart(facts, others);
        }
    }
    assert forall|i: int| 0 <= i < x.len() implies counted((#[trigger] x[i]).1) by {}
    if x == y {
        assert(x[0] == y[0]);
        assert(a.label()[0] == b.label()[0]);
        if a is Parsed {
            assert(x[1] == y[1]);
        }
    }
}

proof fn files_are_told_apart(a: FileFactModel, b: FileFactModel)
    ensures
        counted(FileFact::json(a)),
        FileFact::json(a) == FileFact::json(b) ==> a == b,
{
    let x = FileFact::json(a)->Object_0;
    let y = FileFact::json(b)->Object_0;
    counts_are_told_apart(a.bytes as nat, b.bytes as nat);
    languages_are_told_apart(a.language, b.language);
    classes_are_told_apart(a.classification, b.classification);
    rust_statuses_are_told_apart(a.rust, b.rust);
    assert forall|i: int| 0 <= i < x.len() implies counted((#[trigger] x[i]).1) by {}
    if x == y {
        assert(x.len() == y.len());
        assert(x[0] == y[0]);
        assert(x[1] == y[1]);
        assert(x[2] == y[2]);
        assert(x[3] == y[3]);
        assert(x[4] == y[4]);
        if a.sha256 is Some {
            assert(x[5] == y[5]);
        }
    }
}

proof fn all_files_are_told_apart(a: Seq<FileFactModel>, b: Seq<FileFactModel>)
    ensures
        counted(json::item_array::<FileFact>(a)),
        json::item_array::<FileFact>(a) == json::item_array::<FileFact>(b) ==> a == b,
{
    let items = json::item_array::<FileFact>(a)->Array_0;
    assert forall|i: int| 0 <= i < items.len() implies counted(#[trigger] items[i]) by {
        files_are_told_apart(a[i], a[i]);
    }
    assert forall|i: int|
        0 <= i < a.len() && i < b.len() && FileFact::json(#[trigger] a[i]) == FileFact::json(
            b[i],
        ) implies a[i] == b[i] by {
        files_are_told_apart(a[i], b[i]);
    }
    if json::item_array::<FileFact>(a) == json::item_array::<FileFact>(b) {
        arrays_are_told_apart::<FileFact>(a, b);
    }
}

proof fn targets_are_told_apart(a: CargoTargetModel, b: CargoTargetModel)
    ensures
        counted(CargoTarget::json(a)),
        CargoTarget::json(a) == CargoTarget::json(b) ==> a == b,
{
    let x = CargoTarget::json(a)->Object_0;
    let y = CargoTarget::json(b)->Object_0;
    texts_are_told_apart(a.kinds, b.kinds);
    assert forall|i: int| 0 <= i < x.len() implies counted((#[trigger] x[i]).1) by {}
    if x == y {
        assert(x[0] == y[0]);
        assert(x[1] == y[1]);
    }
}

proof fn all_targets_are_told_apart(a: Seq<CargoTargetModel>, b: Seq<CargoTargetModel>)
    ensures
        counted(json::item_array::<CargoTarget>(a)),
        json::item_array::<CargoTarget>(a) == json::item_array::<CargoTarget>(b) ==> a == b,
{
    let items = json::item_array::<CargoTarget>(a)->Array_0;
    assert forall|i: int| 0 <= i < items.len() implies counted(#[trigger] items[i]) by {
        targets_are_told_apart(a[i], a[i]);
    }
    assert forall|i: int|
        0 <= i < a.len() && i < b.len() && CargoTarget::json(#[trigger] a[i]) == CargoTarget::json(
            b[i],
        ) implies a[i] == b[i] by {
        targets_are_told_apart(a[i], b[i]);
    }
    if json::item_array::<CargoTarget>(a) == json::item_array::<CargoTarget>(b) {
        arrays_are_told_apart::<CargoTarget>(a, b);
    }
}

proof fn packages_are_told_apart(a: CargoPackageModel, b: CargoPackageModel)
    ensures
        counted(CargoPackage::json(a)),
        CargoPackage::json(a) == CargoPackage::json(b) ==> a == b,
{
    let x = CargoPackage::json(a)->Object_0;
    let y = CargoPackage::json(b)->Object_0;
    all_targets_are_told_apart(a.targets, b.targets);
    assert forall|i: int| 0 <= i < x.len() implies counted((#[trigger] x[i]).1) by {}
    if x == y {
        assert(x[0] == y[0]);
        assert(x[1] == y[1]);
        assert(x[2] == y[2]);
    }
}

proof fn dependencies_are_told_apart(a: CargoDependencyEdgeModel, b: CargoDependencyEdgeModel)
    ensures
        counted(CargoDependencyEdge::json(a)),
        CargoDependencyEdge::json(a) == CargoDependencyEdge::json(b) ==> a == b,
{
    let x = CargoDependencyEdge::json(a)->Object_0;
    let y = CargoDependencyEdge::json(b)->Object_0;
    assert forall|i: int| 0 <= i < x.len() implies counted((#[trigger] x[i]).1) by {}
    if x == y {
        assert(x[0] == y[0]);
        assert(x[1] == y[1]);
    }
}

proof fn all_packages_are_told_apart(a: Seq<CargoPackageModel>, b: Seq<CargoPackageModel>)
    ensures
        counted(json::item_array::<CargoPackage>(a)),
        json::item_array::<CargoPackage>(a) == json::item_array::<CargoPackage>(b) ==> a == b,
{
    let items = json::item_array::<CargoPackage>(a)->Array_0;
    assert forall|i: int| 0 <= i < items.len() implies counted(#[trigger] items[i]) by {
        packages_are_told_apart(a[i], a[i]);
    }
    assert forall|i: int|
        0 <= i < a.len() && i < b.len() && CargoPackage::json(#[trigger] a[i]) == CargoPackage::json(
            b[i],
        ) implies a[i] == b[i] by {
        packages_are_told_apart(a[i], b[i]);
    }
    if json::item_array::<CargoPackage>(a) == json::item_array::<CargoPackage>(b) {
        arrays_are_told_apart::<CargoPackage>(a, b);
    }
}

proof fn all_dependencies_are_told_apart(
    a: Seq<CargoDependencyEdgeModel>,
    b: Seq<CargoDependencyEdgeModel>,
)
    ensures
        counted(json::item_array::<CargoDependencyEdge>(a)),
        json::item_array::<CargoDependencyEdge>(a) == json::item_array::<CargoDependencyEdge>(b)
            ==> a == b,
{
    let items = json::item_array::<CargoDependencyEdge>(a)->Array_0;
    assert forall|i: int| 0 <= i < items.len() implies counted(#[trigger] items[i]) by {
        dependencies_are_told_apart(a[i], a[i]);
    }
    assert forall|i: int|
        0 <= i < a.len() && i < b.len() && CargoDependencyEdge::json(#[trigger] a[i]) == CargoDependencyEdge::json(
            b[i],
        ) implies a[i] == b[i] by {
        dependencies_are_told_apart(a[i], b[i]);
    }
    if json::item_array::<CargoDependencyEdge>(a) == json::item_array::<CargoDependencyEdge>(b) {
        arrays_are_told_apart::<CargoDependencyEdge>(a, b);
    }
}

proof fn cargo_facts_are_told_apart(a: CargoFactsModel, b: CargoFactsModel)
    ensures
        counted(CargoFacts::json(a)),
        CargoFacts::json(a) == CargoFacts::json(b) ==> a == b,
{
    let x = CargoFacts::json(a)->Object_0;
    let y = CargoFacts::json(b)->Object_0;
    all_packages_are_told_apart(a.packages, b.packages);
    all_dependencies_are_told_apart(a.dependency_edges, b.dependency_edges);
    assert forall|i: int| 0 <= i < x.len() implies counted((#[trigger] x[i]).1) by {}
    if x == y {
        assert(x[0] == y[0]);
        assert(x[1] == y[1]);
        assert(x[2] == y[2]);
    }
}

proof fn omissions_are_told_apart(a: OmissionCountsModel, b: OmissionCountsModel)
    ensures
        counted(OmissionCounts::json(a)),
        OmissionCounts::json(a) == OmissionCounts::json(b) ==> a == b,
{
    let x = OmissionCounts::json(a)->Object_0;
    let y = OmissionCounts::json(b)->Object_0;
    counts_are_told_apart(a.walked_limit, b.walked_limit);
    counts_are_told_apart(a.walk_errors, b.walk_errors);
    counts_are_told_apart(a.symlinks, b.symlinks);
    counts_are_told_apart(a.invalid_paths, b.invalid_paths);
    counts_are_told_apart(a.path_too_long, b.path_too_long);
    counts_are_told_apart(a.oversized_files, b.oversized_files);
    counts_are_told_apart(a.malformed_rust, b.malformed_rust);
    counts_are_told_apart(a.index_limit, b.index_limit);
    assert forall|i: int| 0 <= i < x.len() implies counted((#[trigger] x[i]).1) by {}
    if x == y {
        assert(x[0] == y[0]);
        assert(x[1] == y[1]);
        assert(x[2] == y[2]);
        assert(x[3] == y[3]);
        assert(x[4] == y[4]);
        assert(x[5] == y[5]);
        assert(x[6] == y[6]);
        assert(x[7] == y[7]);
    }
}

/// Two indexes are written alike only where they are the same: the text that is kept of an
/// index holds all of it, and can be read as no other.
pub proof fn kept_indexes_are_told_apart(a: RepositoryMapIndexModel, b: RepositoryMapIndexModel)
    requires
        json::written(RepositoryMapIndex::json(a)) == json::written(RepositoryMapIndex::json(b)),
    ensures
        a == b,
{
    let x = RepositoryMapIndex::json(a)->Object_0;
    let y = RepositoryMapIndex::json(b)->Object_0;
    all_files_are_told_apart(a.files, b.files);
    all_files_are_told_apart(b.files, a.files);
    cargo_facts_are_told_apart(a.cargo, b.cargo);
    cargo_facts_are_told_apart(b.cargo, a.cargo);
    omissions_are_told_apart(a.omissions, b.omissions);
    omissions_are_told_apart(b.omissions, a.omissions);
    completenesses_are_told_apart(a.completeness, b.completeness);
    assert forall|i: int| 0 <= i < x.len() implies counted((#[trigger] x[i]).1) by {}
    assert forall|i: int| 0 <= i < y.len() implies counted((#[trigger] y[i]).1) by {}
    values_are_told_apart(RepositoryMapIndex::json(a), RepositoryMapIndex::json(b));
    assert(x[0] == y[0]);
    assert(x[1] == y[1]);
    assert(x[2] == y[2]);
    assert(x[3] == y[3]);
    assert(x[4] == y[4]);
}

/// An index that a refresh gives is loaded again as the same index: its text is within the
/// bound, and whatever index is read from that text, and would be written as it, is the one that
/// was kept, and is loaded.
pub proof fn refreshed_indexes_load_again(
    refresh: RefreshModel,
    collected: CargoFactsModel,
    read: RepositoryMapIndexModel,
)
    requires
        refresh.is_valid(),
        refresh.paths_are_safe(),
        refresh.result(collected) is Ok,
        json::written(RepositoryMapIndex::json(read)) == json::written(
            RepositoryMapIndex::json(refresh.result(collected)->Ok_0.index),
        ),
    ensures
        ({
            let index = refresh.result(collected)->Ok_0.index;
            let bytes = refreshing::index_bytes(index);
            &&& bytes <= MAX_INDEX_BYTES
            &&& read == index
            &&& state::loaded(Some(bytes as u64), Some(read)) == Some(index)
        }),
{
    let index = refresh.result(collected)->Ok_0.index;
    kept_indexes_are_told_apart(read, index);
    refreshing::bounded_indexes_fit(refresh.index(collected));
    refreshing::refreshed_index_is_valid(refresh, collected);
}

/// Nothing is loaded, and that is no error, where there is no file, where it is too large, where
/// no index can be read from it, and where the index has another schema or is not valid: its
/// paths do not increase, or one of them is not safe.
pub proof fn other_indexes_count_as_none(bytes: Option<u64>, read: Option<RepositoryMapIndexModel>)
    ensures
        bytes is None ==> state::loaded(bytes, read) is None,
        bytes is Some && bytes->0 > MAX_INDEX_BYTES ==> state::loaded(bytes, read) is None,
        read is None ==> state::loaded(bytes, read) is None,
        read is Some && (read->0.schema != INDEX_SCHEMA@ || !repository_map::valid_index(read->0))
            ==> state::loaded(bytes, read) is None,
{
}

} // verus!
