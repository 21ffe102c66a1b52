//! Bounded facts about a repository: its files, what their syntax shows, and its packages.
//!
//! The facts are syntactic. They name no types, build no call graph and hold no source text.

use vstd::prelude::*;
use crate::json;
use crate::json::{Json, JsonMember, JsonModel, ToJson};
use crate::list;
use crate::list::Duplicate;
use crate::text;

pub mod cargo;
pub mod laws;
pub mod kept;
pub mod projection;
pub mod refreshing;
pub mod search;
pub mod state;
pub mod syntax;

verus! {

broadcast use vstd::string::group_string_axioms;

pub const INDEX_SCHEMA: &'static str = "cabal.repository_map.v1";

pub const INVENTORY_SCHEMA: &'static str = "cabal.repository_inventory.v1";

pub const MAX_WALKED_FILES: usize = 100_000;

pub const MAX_INDEXED_FILE_BYTES: u64 = 1_048_576;

pub const MAX_PATH_BYTES: usize = 4_096;

pub const MAX_RUST_SYMBOLS_PER_FILE: usize = 2_048;

pub const MAX_RUST_REFERENCES_PER_FILE: usize = 2_048;

pub const MAX_IMPORTS_PER_FILE: usize = 2_048;

pub const MAX_INDEX_BYTES: usize = 134_217_728;

pub const MAX_INVENTORY_BYTES: usize = 65_536;

pub const MAX_INVENTORY_PATHS: usize = 256;

pub const MAX_INVENTORY_PACKAGES: usize = 128;

pub const MAX_INVENTORY_TARGETS: usize = 512;

#[derive(Clone, Copy, Debug, PartialEq, Eq, Structural)]
pub enum Completeness {
    Complete,
    Bounded,
    CargoUnavailable,
    BoundedAndCargoUnavailable,
}

impl DeepView for Completeness {
    type V = Completeness;

    open spec fn deep_view(&self) -> Completeness {
        *self
    }
}

impl Completeness {
    pub open spec fn label(self) -> Seq<char> {
        match self {
            Completeness::Complete => "complete"@,
            Completeness::Bounded => "bounded"@,
            Completeness::CargoUnavailable => "cargo_unavailable"@,
            Completeness::BoundedAndCargoUnavailable => "bounded_and_cargo_unavailable"@,
        }
    }

    /// The name on the wire.
    pub fn name(self) -> (r: &'static str)
        ensures
            r@ == self.label(),
    {
        match self {
            Completeness::Complete => "complete",
            Completeness::Bounded => "bounded",
            Completeness::CargoUnavailable => "cargo_unavailable",
            Completeness::BoundedAndCargoUnavailable => "bounded_and_cargo_unavailable",
        }
    }
}

impl ToJson for Completeness {
    open spec fn json(value: Completeness) -> JsonModel {
        JsonModel::Text(value.label())
    }

    fn to_json(&self) -> (r: Json) {
        json::of_text(self.name())
    }
}

#[derive(Clone, Copy, Debug, PartialEq, Eq, Structural)]
pub enum LanguageClass {
    Rust,
    Toml,
    Text,
    Other,
}

impl DeepView for LanguageClass {
    type V = LanguageClass;

    open spec fn deep_view(&self) -> LanguageClass {
        *self
    }
}

impl LanguageClass {
    pub open spec fn label(self) -> Seq<char> {
        match self {
            LanguageClass::Rust => "rust"@,
            LanguageClass::Toml => "toml"@,
            LanguageClass::Text => "text"@,
            LanguageClass::Other => "other"@,
        }
    }

    /// The name on the wire.
    pub fn name(self) -> (r: &'static str)
        ensures
            r@ == self.label(),
    {
        match self {
            LanguageClass::Rust => "rust",
            LanguageClass::Toml => "toml",
            LanguageClass::Text => "text",
            LanguageClass::Other => "other",
        }
    }
}

impl ToJson for LanguageClass {
    open spec fn json(value: LanguageClass) -> JsonModel {
        JsonModel::Text(value.label())
    }

    fn to_json(&self) -> (r: Json) {
        json::of_text(self.name())
    }
}

#[derive(Clone, Copy, Debug, PartialEq, Eq, Structural)]
pub enum FileClassification {
    Source,
    Test,
    Manifest,
    Configuration,
    Other,
}

impl DeepView for FileClassification {
    type V = FileClassification;

    open spec fn deep_view(&self) -> FileClassification {
        *self
    }
}

impl FileClassification {
    pub open spec fn label(self) -> Seq<char> {
        match self {
            FileClassification::Source => "source"@,
            FileClassification::Test => "test"@,
            FileClassification::Manifest => "manifest"@,
            FileClassification::Configuration => "configuration"@,
            FileClassification::Other => "other"@,
        }
    }

    /// The name on the wire.
    pub fn name(self) -> (r: &'static str)
        ensures
            r@ == self.label(),
    {
        match self {
            FileClassification::Source => "source",
            FileClassification::Test => "test",
            FileClassification::Manifest => "manifest",
            FileClassification::Configuration => "configuration",
            FileClassification::Other => "other",
        }
    }
}

impl ToJson for FileClassification {
    open spec fn json(value: FileClassification) -> JsonModel {
        JsonModel::Text(value.label())
    }

    fn to_json(&self) -> (r: Json) {
        json::of_text(self.name())
    }
}

#[derive(Clone, Copy, Debug, PartialEq, Eq, Structural)]
pub enum DefinitionKind {
    Function,
    Struct,
    Enum,
    Trait,
    Type,
    Const,
    Static,
    Union,
    Macro,
}

impl DeepView for DefinitionKind {
    type V = DefinitionKind;

    open spec fn deep_view(&self) -> DefinitionKind {
        *self
    }
}

impl DefinitionKind {
    pub open spec fn label(self) -> Seq<char> {
        match self {
            DefinitionKind::Function => "function"@,
            DefinitionKind::Struct => "struct"@,
            DefinitionKind::Enum => "enum"@,
            DefinitionKind::Trait => "trait"@,
            DefinitionKind::Type => "type"@,
            DefinitionKind::Const => "const"@,
            DefinitionKind::Static => "static"@,
            DefinitionKind::Union => "union"@,
            DefinitionKind::Macro => "macro"@,
        }
    }

    /// The name on the wire.
    pub fn name(self) -> (r: &'static str)
        ensures
            r@ == self.label(),
    {
        match self {
            DefinitionKind::Function => "function",
            DefinitionKind::Struct => "struct",
            DefinitionKind::Enum => "enum",
            DefinitionKind::Trait => "trait",
            DefinitionKind::Type => "type",
            DefinitionKind::Const => "const",
            DefinitionKind::Static => "static",
            DefinitionKind::Union => "union",
            DefinitionKind::Macro => "macro",
        }
    }
}

impl ToJson for DefinitionKind {
    open spec fn json(value: DefinitionKind) -> JsonModel {
        JsonModel::Text(value.label())
    }

    fn to_json(&self) -> (r: Json) {
        json::of_text(self.name())
    }
}

/// What was left out of an index, by reason.
#[derive(Clone, Debug, PartialEq, Eq)]
pub struct OmissionCounts {
    pub walked_limit: u64,
    pub walk_errors: u64,
    pub symlinks: u64,
    pub invalid_paths: u64,
    pub path_too_long: u64,
    pub oversized_files: u64,
    pub malformed_rust: u64,
    pub index_limit: u64,
}

/// What a `OmissionCounts` says.
pub struct OmissionCountsModel {
    pub walked_limit: nat,
    pub walk_errors: nat,
    pub symlinks: nat,
    pub invalid_paths: nat,
    pub path_too_long: nat,
    pub oversized_files: nat,
    pub malformed_rust: nat,
    pub index_limit: nat,
}

impl DeepView for OmissionCounts {
    type V = OmissionCountsModel;

    open spec fn deep_view(&self) -> OmissionCountsModel {
        OmissionCountsModel {
            walked_limit: self.walked_limit as nat,
            walk_errors: self.walk_errors as nat,
            symlinks: self.symlinks as nat,
            invalid_paths: self.invalid_paths as nat,
            path_too_long: self.path_too_long as nat,
            oversized_files: self.oversized_files as nat,
            malformed_rust: self.malformed_rust as nat,
            index_limit: self.index_limit as nat,
        }
    }
}

impl Duplicate for OmissionCounts {
    fn duplicate(&self) -> (r: OmissionCounts) {
        OmissionCounts {
            walked_limit: self.walked_limit,
            walk_errors: self.walk_errors,
            symlinks: self.symlinks,
            invalid_paths: self.invalid_paths,
            path_too_long: self.path_too_long,
            oversized_files: self.oversized_files,
            malformed_rust: self.malformed_rust,
            index_limit: self.index_limit,
        }
    }
}

impl Default for OmissionCounts {
    fn default() -> (r: OmissionCounts)
        ensures
            r.deep_view() == (OmissionCountsModel {
                walked_limit: 0,
                walk_errors: 0,
                symlinks: 0,
                invalid_paths: 0,
                path_too_long: 0,
                oversized_files: 0,
                malformed_rust: 0,
                index_limit: 0,
            }),
    {
        let r = OmissionCounts {
            walked_limit: 0,
            walk_errors: 0,
            symlinks: 0,
            invalid_paths: 0,
            path_too_long: 0,
            oversized_files: 0,
            malformed_rust: 0,
            index_limit: 0,
        };
        r
    }
}

impl ToJson for OmissionCounts {
    open spec fn json(value: OmissionCountsModel) -> JsonModel {
        JsonModel::Object(
            seq![
                ("walked_limit"@, json::count_model(value.walked_limit)),
                ("walk_errors"@, json::count_model(value.walk_errors)),
                ("symlinks"@, json::count_model(value.symlinks)),
                ("invalid_paths"@, json::count_model(value.invalid_paths)),
                ("path_too_long"@, json::count_model(value.path_too_long)),
                ("oversized_files"@, json::count_model(value.oversized_files)),
                ("malformed_rust"@, json::count_model(value.malformed_rust)),
                ("index_limit"@, json::count_model(value.index_limit)),
            ],
        )
    }

    fn to_json(&self) -> (r: Json) {
        let mut members: Vec<JsonMember> = Vec::new();
        assert(json::member_models(members@) =~= Seq::empty());
        json::put(&mut members, "walked_limit", json::of_count(self.walked_limit));
        json::put(&mut members, "walk_errors", json::of_count(self.walk_errors));
        json::put(&mut members, "symlinks", json::of_count(self.symlinks));
        json::put(&mut members, "invalid_paths", json::of_count(self.invalid_paths));
        json::put(&mut members, "path_too_long", json::of_count(self.path_too_long));
        json::put(&mut members, "oversized_files", json::of_count(self.oversized_files));
        json::put(&mut members, "malformed_rust", json::of_count(self.malformed_rust));
        json::put(&mut members, "index_limit", json::of_count(self.index_limit));
        assert(json::member_models(members@) =~= Self::json(self.deep_view())->Object_0);
        json::of_members(members)
    }
}

#[derive(Clone, Debug, PartialEq, Eq)]
pub enum Visibility {
    Private,
    Public,
    Restricted { scope: String },
}

/// What a `Visibility` says.
pub enum VisibilityModel {
    Private,
    Public,
    Restricted { scope: Seq<char> },
}

impl DeepView for Visibility {
    type V = VisibilityModel;

    open spec fn deep_view(&self) -> VisibilityModel {
        match self {
            Visibility::Private => VisibilityModel::Private,
            Visibility::Public => VisibilityModel::Public,
            Visibility::Restricted { scope } => VisibilityModel::Restricted { scope: scope@ },
        }
    }
}

impl Duplicate for Visibility {
    fn duplicate(&self) -> (r: Visibility) {
        match self {
            Visibility::Private => Visibility::Private,
            Visibility::Public => Visibility::Public,
            Visibility::Restricted { scope } => Visibility::Restricted {
                scope: text::copy(scope.as_str()),
            },
        }
    }
}

impl Visibility {
    /// Two visibilities are the same.
    pub fn same(&self, other: &Visibility) -> (r: bool)
        ensures
            r == (self.deep_view() == other.deep_view()),
    {
        match (self, other) {
            (Visibility::Private, Visibility::Private) => true,
            (Visibility::Public, Visibility::Public) => true,
            (Visibility::Restricted { scope: a }, Visibility::Restricted { scope: b }) => {
                text::same_text(a.as_str(), b.as_str())
            },
            _ => false,
        }
    }
}

impl ToJson for Visibility {
    open spec fn json(value: VisibilityModel) -> JsonModel {
        match value {
            VisibilityModel::Private => JsonModel::Text("private"@),
            VisibilityModel::Public => JsonModel::Text("public"@),
            VisibilityModel::Restricted { scope } => JsonModel::Object(
                seq![
                    (
                        "restricted"@,
                        JsonModel::Object(seq![("scope"@, JsonModel::Text(scope))]),
                    ),
                ],
            ),
        }
    }

    fn to_json(&self) -> (r: Json) {
        match self {
            Visibility::Private => json::of_text("private"),
            Visibility::Public => json::of_text("public"),
            Visibility::Restricted { scope } => {
                let mut inner: Vec<JsonMember> = Vec::new();
                assert(json::member_models(inner@) =~= Seq::empty());
                json::put(&mut inner, "scope", json::of_text(scope.as_str()));
                assert(json::member_models(inner@) =~= seq![
                    ("scope"@, JsonModel::Text(scope@)),
                ]);
                let mut members: Vec<JsonMember> = Vec::new();
                assert(json::member_models(members@) =~= Seq::empty());
                json::put(&mut members, "restricted", json::of_members(inner));
                assert(json::member_models(members@) =~= Self::json(
                    self.deep_view(),
                )->Object_0);
                json::of_members(members)
            },
        }
    }
}

#[derive(Clone, Debug, PartialEq, Eq)]
pub struct ModuleFact {
    pub name: String,
    pub visibility: Visibility,
    pub line: u32,
    pub inline: bool,
}

/// What a `ModuleFact` says.
pub struct ModuleFactModel {
    pub name: Seq<char>,
    pub visibility: VisibilityModel,
    pub line: u32,
    pub inline: bool,
}

impl DeepView for ModuleFact {
    type V = ModuleFactModel;

    open spec fn deep_view(&self) -> ModuleFactModel {
        ModuleFactModel {
            name: self.name@,
            visibility: self.visibility.deep_view(),
            line: self.line,
            inline: self.inline,
        }
    }
}

impl Duplicate for ModuleFact {
    fn duplicate(&self) -> (r: ModuleFact) {
        ModuleFact {
            name: text::copy(self.name.as_str()),
            visibility: self.visibility.duplicate(),
            line: self.line,
            inline: self.inline,
        }
    }
}

impl ToJson for ModuleFact {
    open spec fn json(value: ModuleFactModel) -> JsonModel {
        JsonModel::Object(
            seq![
                ("name"@, JsonModel::Text(value.name)),
                ("visibility"@, Visibility::json(value.visibility)),
                ("line"@, json::count_model(value.line as nat)),
                ("inline"@, JsonModel::Bool(value.inline)),
            ],
        )
    }

    fn to_json(&self) -> (r: Json) {
        let mut members: Vec<JsonMember> = Vec::new();
        assert(json::member_models(members@) =~= Seq::empty());
        json::put(&mut members, "name", json::of_text(self.name.as_str()));
        json::put(&mut members, "visibility", self.visibility.to_json());
        json::put(&mut members, "line", json::of_count(self.line as u64));
        json::put(&mut members, "inline", Json::Bool(self.inline));
        assert(json::member_models(members@) =~= Self::json(self.deep_view())->Object_0);
        json::of_members(members)
    }
}

#[derive(Clone, Debug, PartialEq, Eq)]
pub struct DefinitionFact {
    pub name: String,
    pub kind: DefinitionKind,
    pub visibility: Visibility,
    pub line: u32,
}

/// What a `DefinitionFact` says.
pub struct DefinitionFactModel {
    pub name: Seq<char>,
    pub kind: DefinitionKind,
    pub visibility: VisibilityModel,
    pub line: u32,
}

impl DeepView for DefinitionFact {
    type V = DefinitionFactModel;

    open spec fn deep_view(&self) -> DefinitionFactModel {
        DefinitionFactModel {
            name: self.name@,
            kind: self.kind,
            visibility: self.visibility.deep_view(),
            line: self.line,
        }
    }
}

impl Duplicate for DefinitionFact {
    fn duplicate(&self) -> (r: DefinitionFact) {
        DefinitionFact {
            name: text::copy(self.name.as_str()),
            kind: self.kind,
            visibility: self.visibility.duplicate(),
            line: self.line,
        }
    }
}

impl ToJson for DefinitionFact {
    open spec fn json(value: DefinitionFactModel) -> JsonModel {
        JsonModel::Object(
            seq![
                ("name"@, JsonModel::Text(value.name)),
                ("kind"@, DefinitionKind::json(value.kind)),
                ("visibility"@, Visibility::json(value.visibility)),
                ("line"@, json::count_model(value.line as nat)),
            ],
        )
    }

    fn to_json(&self) -> (r: Json) {
        let mut members: Vec<JsonMember> = Vec::new();
        assert(json::member_models(members@) =~= Seq::empty());
        json::put(&mut members, "name", json::of_text(self.name.as_str()));
        json::put(&mut members, "kind", self.kind.to_json());
        json::put(&mut members, "visibility", self.visibility.to_json());
        json::put(&mut members, "line", json::of_count(self.line as u64));
        assert(json::member_models(members@) =~= Self::json(self.deep_view())->Object_0);
        json::of_members(members)
    }
}

#[derive(Clone, Debug, PartialEq, Eq)]
pub struct ImportFact {
    pub path: String,
    pub alias: Option<String>,
    pub glob: bool,
    pub line: u32,
}

/// What a `ImportFact` says.
pub struct ImportFactModel {
    pub path: Seq<char>,
    pub alias: Option<Seq<char>>,
    pub glob: bool,
    pub line: u32,
}

impl DeepView for ImportFact {
    type V = ImportFactModel;

    open spec fn deep_view(&self) -> ImportFactModel {
        ImportFactModel {
            path: self.path@,
            alias: self.alias.deep_view(),
            glob: self.glob,
            line: self.line,
        }
    }
}

impl Duplicate for ImportFact {
    fn duplicate(&self) -> (r: ImportFact) {
        ImportFact {
            path: text::copy(self.path.as_str()),
            alias: text::copy_option(&self.alias),
            glob: self.glob,
            line: self.line,
        }
    }
}

impl ToJson for ImportFact {
    open spec fn json(value: ImportFactModel) -> JsonModel {
        JsonModel::Object(
            seq![
                ("path"@, JsonModel::Text(value.path)),
            ] + (match value.alias {
                Some(alias) => seq![("alias"@, JsonModel::Text(alias))],
                None => seq![],
            }) + seq![
                ("glob"@, JsonModel::Bool(value.glob)),
                ("line"@, json::count_model(value.line as nat)),
            ],
        )
    }

    fn to_json(&self) -> (r: Json) {
        let mut members: Vec<JsonMember> = Vec::new();
        assert(json::member_models(members@) =~= Seq::empty());
        json::put(&mut members, "path", json::of_text(self.path.as_str()));
        if let Some(alias) = &self.alias {
            json::put(&mut members, "alias", json::of_text(alias.as_str()));
        }
        json::put(&mut members, "glob", Json::Bool(self.glob));
        json::put(&mut members, "line", json::of_count(self.line as u64));
        assert(json::member_models(members@) =~= Self::json(self.deep_view())->Object_0);
        json::of_members(members)
    }
}

#[derive(Clone, Debug, PartialEq, Eq)]
pub struct ReferenceFact {
    pub path: String,
    pub line: u32,
}

/// What a `ReferenceFact` says.
pub struct ReferenceFactModel {
    pub path: Seq<char>,
    pub line: u32,
}

impl DeepView for ReferenceFact {
    type V = ReferenceFactModel;

    open spec fn deep_view(&self) -> ReferenceFactModel {
        ReferenceFactModel {
            path: self.path@,
            line: self.line,
        }
    }
}

impl Duplicate for ReferenceFact {
    fn duplicate(&self) -> (r: ReferenceFact) {
        ReferenceFact {
            path: text::copy(self.path.as_str()),
            line: self.line,
        }
    }
}

impl ToJson for ReferenceFact {
    open spec fn json(value: ReferenceFactModel) -> JsonModel {
        JsonModel::Object(
            seq![
                ("path"@, JsonModel::Text(value.path)),
                ("line"@, json::count_model(value.line as nat)),
            ],
        )
    }

    fn to_json(&self) -> (r: Json) {
        let mut members: Vec<JsonMember> = Vec::new();
        assert(json::member_models(members@) =~= Seq::empty());
        json::put(&mut members, "path", json::of_text(self.path.as_str()));
        json::put(&mut members, "line", json::of_count(self.line as u64));
        assert(json::member_models(members@) =~= Self::json(self.deep_view())->Object_0);
        json::of_members(members)
    }
}

#[derive(Clone, Debug, PartialEq, Eq)]
pub struct TestFact {
    pub name: String,
    pub line: u32,
    pub references: Vec<String>,
}

/// What a `TestFact` says.
pub struct TestFactModel {
    pub name: Seq<char>,
    pub line: u32,
    pub references: Seq<Seq<char>>,
}

impl DeepView for TestFact {
    type V = TestFactModel;

    open spec fn deep_view(&self) -> TestFactModel {
        TestFactModel {
            name: self.name@,
            line: self.line,
            references: self.references.deep_view(),
        }
    }
}

impl Duplicate for TestFact {
    fn duplicate(&self) -> (r: TestFact) {
        TestFact {
            name: text::copy(self.name.as_str()),
            line: self.line,
            references: text::copy_list(&self.references),
        }
    }
}

impl ToJson for TestFact {
    open spec fn json(value: TestFactModel) -> JsonModel {
        JsonModel::Object(
            seq![
                ("name"@, JsonModel::Text(value.name)),
                ("line"@, json::count_model(value.line as nat)),
                ("references"@, json::text_array(value.references)),
            ],
        )
    }

    fn to_json(&self) -> (r: Json) {
        let mut members: Vec<JsonMember> = Vec::new();
        assert(json::member_models(members@) =~= Seq::empty());
        json::put(&mut members, "name", json::of_text(self.name.as_str()));
        json::put(&mut members, "line", json::of_count(self.line as u64));
        json::put(&mut members, "references", json::of_texts(&self.references));
        assert(json::member_models(members@) =~= Self::json(self.deep_view())->Object_0);
        json::of_members(members)
    }
}

/// What was left out of the facts of a file.
#[derive(Clone, Debug, PartialEq, Eq)]
pub struct RustOmissions {
    pub symbols: u64,
    pub imports: u64,
    pub references: u64,
}

/// What a `RustOmissions` says.
pub struct RustOmissionsModel {
    pub symbols: nat,
    pub imports: nat,
    pub references: nat,
}

impl DeepView for RustOmissions {
    type V = RustOmissionsModel;

    open spec fn deep_view(&self) -> RustOmissionsModel {
        RustOmissionsModel {
            symbols: self.symbols as nat,
            imports: self.imports as nat,
            references: self.references as nat,
        }
    }
}

impl Duplicate for RustOmissions {
    fn duplicate(&self) -> (r: RustOmissions) {
        RustOmissions {
            symbols: self.symbols,
            imports: self.imports,
            references: self.references,
        }
    }
}

impl Default for RustOmissions {
    fn default() -> (r: RustOmissions)
        ensures
            r.deep_view() == (RustOmissionsModel {
                symbols: 0,
                imports: 0,
                references: 0,
            }),
    {
        let r = RustOmissions {
            symbols: 0,
            imports: 0,
            references: 0,
        };
        r
    }
}

impl ToJson for RustOmissions {
    open spec fn json(value: RustOmissionsModel) -> JsonModel {
        JsonModel::Object(
            seq![
                ("symbols"@, json::count_model(value.symbols)),
                ("imports"@, json::count_model(value.imports)),
                ("references"@, json::count_model(value.references)),
            ],
        )
    }

    fn to_json(&self) -> (r: Json) {
        let mut members: Vec<JsonMember> = Vec::new();
        assert(json::member_models(members@) =~= Seq::empty());
        json::put(&mut members, "symbols", json::of_count(self.symbols));
        json::put(&mut members, "imports", json::of_count(self.imports));
        json::put(&mut members, "references", json::of_count(self.references));
        assert(json::member_models(members@) =~= Self::json(self.deep_view())->Object_0);
        json::of_members(members)
    }
}

#[derive(Clone, Debug, PartialEq, Eq)]
pub struct RustFileFacts {
    pub modules: Vec<ModuleFact>,
    pub definitions: Vec<DefinitionFact>,
    pub imports: Vec<ImportFact>,
    pub references: Vec<ReferenceFact>,
    pub reference_edges: Vec<String>,
    pub tests: Vec<TestFact>,
    pub omissions: RustOmissions,
}

/// What a `RustFileFacts` says.
pub struct RustFileFactsModel {
    pub modules: Seq<ModuleFactModel>,
    pub definitions: Seq<DefinitionFactModel>,
    pub imports: Seq<ImportFactModel>,
    pub references: Seq<ReferenceFactModel>,
    pub reference_edges: Seq<Seq<char>>,
    pub tests: Seq<TestFactModel>,
    pub omissions: RustOmissionsModel,
}

impl DeepView for RustFileFacts {
    type V = RustFileFactsModel;

    open spec fn deep_view(&self) -> RustFileFactsModel {
        RustFileFactsModel {
            modules: self.modules.deep_view(),
            definitions: self.definitions.deep_view(),
            imports: self.imports.deep_view(),
            references: self.references.deep_view(),
            reference_edges: self.reference_edges.deep_view(),
            tests: self.tests.deep_view(),
            omissions: self.omissions.deep_view(),
        }
    }
}

impl Duplicate for RustFileFacts {
    fn duplicate(&self) -> (r: RustFileFacts) {
        RustFileFacts {
            modules: list::duplicate_all(&self.modules),
            definitions: list::duplicate_all(&self.definitions),
            imports: list::duplicate_all(&self.imports),
            references: list::duplicate_all(&self.references),
            reference_edges: text::copy_list(&self.reference_edges),
            tests: list::duplicate_all(&self.tests),
            omissions: self.omissions.duplicate(),
        }
    }
}

impl ToJson for RustFileFacts {
    open spec fn json(value: RustFileFactsModel) -> JsonModel {
        JsonModel::Object(
            seq![
                ("modules"@, json::item_array::<ModuleFact>(value.modules)),
                ("definitions"@, json::item_array::<DefinitionFact>(value.definitions)),
                ("imports"@, json::item_array::<ImportFact>(value.imports)),
                ("references"@, json::item_array::<ReferenceFact>(value.references)),
                ("reference_edges"@, json::text_array(value.reference_edges)),
                ("tests"@, json::item_array::<TestFact>(value.tests)),
                ("omissions"@, RustOmissions::json(value.omissions)),
            ],
        )
    }

    fn to_json(&self) -> (r: Json) {
        let mut members: Vec<JsonMember> = Vec::new();
        assert(json::member_models(members@) =~= Seq::empty());
        json::put(&mut members, "modules", json::of_items(&self.modules));
        json::put(&mut members, "definitions", json::of_items(&self.definitions));
        json::put(&mut members, "imports", json::of_items(&self.imports));
        json::put(&mut members, "references", json::of_items(&self.references));
        json::put(&mut members, "reference_edges", json::of_texts(&self.reference_edges));
        json::put(&mut members, "tests", json::of_items(&self.tests));
        json::put(&mut members, "omissions", self.omissions.to_json());
        assert(json::member_models(members@) =~= Self::json(self.deep_view())->Object_0);
        json::of_members(members)
    }
}

#[derive(Clone, Debug, PartialEq, Eq)]
pub enum RustParseStatus {
    NotRust,
    Parsed { facts: RustFileFacts },
    Malformed,
    Oversized,
}

/// What a `RustParseStatus` says.
pub enum RustParseStatusModel {
    NotRust,
    Parsed { facts: RustFileFactsModel },
    Malformed,
    Oversized,
}

impl DeepView for RustParseStatus {
    type V = RustParseStatusModel;

    open spec fn deep_view(&self) -> RustParseStatusModel {
        match self {
            RustParseStatus::NotRust => RustParseStatusModel::NotRust,
            RustParseStatus::Parsed { facts } => RustParseStatusModel::Parsed {
                facts: facts.deep_view(),
            },
            RustParseStatus::Malformed => RustParseStatusModel::Malformed,
            RustParseStatus::Oversized => RustParseStatusModel::Oversized,
        }
    }
}

impl Duplicate for RustParseStatus {
    fn duplicate(&self) -> (r: RustParseStatus) {
        match self {
            RustParseStatus::NotRust => RustParseStatus::NotRust,
            RustParseStatus::Parsed { facts } => RustParseStatus::Parsed {
                facts: facts.duplicate(),
            },
            RustParseStatus::Malformed => RustParseStatus::Malformed,
            RustParseStatus::Oversized => RustParseStatus::Oversized,
        }
    }
}

impl RustParseStatusModel {
    pub open spec fn label(self) -> Seq<char> {
        match self {
            RustParseStatusModel::NotRust => "not_rust"@,
            RustParseStatusModel::Parsed { .. } => "parsed"@,
            RustParseStatusModel::Malformed => "malformed"@,
            RustParseStatusModel::Oversized => "oversized"@,
        }
    }
}

impl ToJson for RustParseStatus {
    open spec fn json(value: RustParseStatusModel) -> JsonModel {
        let status = seq![("status"@, JsonModel::Text(value.label()))];
        JsonModel::Object(
            match value {
                RustParseStatusModel::Parsed { facts } => status.push(
                    ("facts"@, RustFileFacts::json(facts)),
                ),
                _ => status,
            },
        )
    }

    fn to_json(&self) -> (r: Json) {
        let label = match self {
            RustParseStatus::NotRust => "not_rust",
            RustParseStatus::Parsed { .. } => "parsed",
            RustParseStatus::Malformed => "malformed",
            RustParseStatus::Oversized => "oversized",
        };
        let mut members: Vec<JsonMember> = Vec::new();
        assert(json::member_models(members@) =~= Seq::empty());
        json::put(&mut members, "status", json::of_text(label));
        if let RustParseStatus::Parsed { facts } = self {
            json::put(&mut members, "facts", facts.to_json());
        }
        assert(json::member_models(members@) =~= Self::json(self.deep_view())->Object_0);
        json::of_members(members)
    }
}

#[derive(Clone, Debug, PartialEq, Eq)]
pub struct FileFact {
    pub path: String,
    pub sha256: Option<String>,
    pub bytes: u64,
    pub language: LanguageClass,
    pub classification: FileClassification,
    pub rust: RustParseStatus,
}

/// What a `FileFact` says.
pub struct FileFactModel {
    pub path: Seq<char>,
    pub sha256: Option<Seq<char>>,
    pub bytes: u64,
    pub language: LanguageClass,
    pub classification: FileClassification,
    pub rust: RustParseStatusModel,
}

impl DeepView for FileFact {
    type V = FileFactModel;

    open spec fn deep_view(&self) -> FileFactModel {
        FileFactModel {
            path: self.path@,
            sha256: self.sha256.deep_view(),
            bytes: self.bytes,
            language: self.language,
            classification: self.classification,
            rust: self.rust.deep_view(),
        }
    }
}

impl Duplicate for FileFact {
    fn duplicate(&self) -> (r: FileFact) {
        FileFact {
            path: text::copy(self.path.as_str()),
            sha256: text::copy_option(&self.sha256),
            bytes: self.bytes,
            language: self.language,
            classification: self.classification,
            rust: self.rust.duplicate(),
        }
    }
}

impl ToJson for FileFact {
    open spec fn json(value: FileFactModel) -> JsonModel {
        JsonModel::Object(
            seq![
                ("path"@, JsonModel::Text(value.path)),
            ] + (match value.sha256 {
                Some(sha256) => seq![("sha256"@, JsonModel::Text(sha256))],
                None => seq![],
            }) + seq![
                ("bytes"@, json::count_model(value.bytes as nat)),
                ("language"@, LanguageClass::json(value.language)),
                ("classification"@, FileClassification::json(value.classification)),
                ("rust"@, RustParseStatus::json(value.rust)),
            ],
        )
    }

    fn to_json(&self) -> (r: Json) {
        let mut members: Vec<JsonMember> = Vec::new();
        assert(json::member_models(members@) =~= Seq::empty());
        json::put(&mut members, "path", json::of_text(self.path.as_str()));
        if let Some(sha256) = &self.sha256 {
            json::put(&mut members, "sha256", json::of_text(sha256.as_str()));
        }
        json::put(&mut members, "bytes", json::of_count(self.bytes));
        json::put(&mut members, "language", self.language.to_json());
        json::put(&mut members, "classification", self.classification.to_json());
        json::put(&mut members, "rust", self.rust.to_json());
        assert(json::member_models(members@) =~= Self::json(self.deep_view())->Object_0);
        json::of_members(members)
    }
}

#[derive(Clone, Debug, PartialEq, Eq)]
pub struct CargoTarget {
    pub name: String,
    pub kinds: Vec<String>,
}

/// What a `CargoTarget` says.
pub struct CargoTargetModel {
    pub name: Seq<char>,
    pub kinds: Seq<Seq<char>>,
}

impl DeepView for CargoTarget {
    type V = CargoTargetModel;

    open spec fn deep_view(&self) -> CargoTargetModel {
        CargoTargetModel {
            name: self.name@,
            kinds: self.kinds.deep_view(),
        }
    }
}

impl Duplicate for CargoTarget {
    fn duplicate(&self) -> (r: CargoTarget) {
        CargoTarget {
            name: text::copy(self.name.as_str()),
            kinds: text::copy_list(&self.kinds),
        }
    }
}

impl ToJson for CargoTarget {
    open spec fn json(value: CargoTargetModel) -> JsonModel {
        JsonModel::Object(
            seq![
                ("name"@, JsonModel::Text(value.name)),
                ("kinds"@, json::text_array(value.kinds)),
            ],
        )
    }

    fn to_json(&self) -> (r: Json) {
        let mut members: Vec<JsonMember> = Vec::new();
        assert(json::member_models(members@) =~= Seq::empty());
        json::put(&mut members, "name", json::of_text(self.name.as_str()));
        json::put(&mut members, "kinds", json::of_texts(&self.kinds));
        assert(json::member_models(members@) =~= Self::json(self.deep_view())->Object_0);
        json::of_members(members)
    }
}

#[derive(Clone, Debug, PartialEq, Eq)]
pub struct CargoPackage {
    pub name: String,
    pub version: String,
    pub targets: Vec<CargoTarget>,
}

/// What a `CargoPackage` says.
pub struct CargoPackageModel {
    pub name: Seq<char>,
    pub version: Seq<char>,
    pub targets: Seq<CargoTargetModel>,
}

impl DeepView for CargoPackage {
    type V = CargoPackageModel;

    open spec fn deep_view(&self) -> CargoPackageModel {
        CargoPackageModel {
            name: self.name@,
            version: self.version@,
            targets: self.targets.deep_view(),
        }
    }
}

impl Duplicate for CargoPackage {
    fn duplicate(&self) -> (r: CargoPackage) {
        CargoPackage {
            name: text::copy(self.name.as_str()),
            version: text::copy(self.version.as_str()),
            targets: list::duplicate_all(&self.targets),
        }
    }
}

impl ToJson for CargoPackage {
    open spec fn json(value: CargoPackageModel) -> JsonModel {
        JsonModel::Object(
            seq![
                ("name"@, JsonModel::Text(value.name)),
                ("version"@, JsonModel::Text(value.version)),
                ("targets"@, json::item_array::<CargoTarget>(value.targets)),
            ],
        )
    }

    fn to_json(&self) -> (r: Json) {
        let mut members: Vec<JsonMember> = Vec::new();
        assert(json::member_models(members@) =~= Seq::empty());
        json::put(&mut members, "name", json::of_text(self.name.as_str()));
        json::put(&mut members, "version", json::of_text(self.version.as_str()));
        json::put(&mut members, "targets", json::of_items(&self.targets));
        assert(json::member_models(members@) =~= Self::json(self.deep_view())->Object_0);
        json::of_members(members)
    }
}

#[derive(Clone, Debug, PartialEq, Eq)]
pub struct CargoDependencyEdge {
    pub package: String,
    pub dependency: String,
}

/// What a `CargoDependencyEdge` says.
pub struct CargoDependencyEdgeModel {
    pub package: Seq<char>,
    pub dependency: Seq<char>,
}

impl DeepView for CargoDependencyEdge {
    type V = CargoDependencyEdgeModel;

    open spec fn deep_view(&self) -> CargoDependencyEdgeModel {
        CargoDependencyEdgeModel {
            package: self.package@,
            dependency: self.dependency@,
        }
    }
}

impl Duplicate for CargoDependencyEdge {
    fn duplicate(&self) -> (r: CargoDependencyEdge) {
        CargoDependencyEdge {
            package: text::copy(self.package.as_str()),
            dependency: text::copy(self.dependency.as_str()),
        }
    }
}

impl ToJson for CargoDependencyEdge {
    open spec fn json(value: CargoDependencyEdgeModel) -> JsonModel {
        JsonModel::Object(
            seq![
                ("package"@, JsonModel::Text(value.package)),
                ("dependency"@, JsonModel::Text(value.dependency)),
            ],
        )
    }

    fn to_json(&self) -> (r: Json) {
        let mut members: Vec<JsonMember> = Vec::new();
        assert(json::member_models(members@) =~= Seq::empty());
        json::put(&mut members, "package", json::of_text(self.package.as_str()));
        json::put(&mut members, "dependency", json::of_text(self.dependency.as_str()));
        assert(json::member_models(members@) =~= Self::json(self.deep_view())->Object_0);
        json::of_members(members)
    }
}

#[derive(Clone, Debug, PartialEq, Eq)]
pub struct CargoFacts {
    pub available: bool,
    pub packages: Vec<CargoPackage>,
    pub dependency_edges: Vec<CargoDependencyEdge>,
}

/// What a `CargoFacts` says.
pub struct CargoFactsModel {
    pub available: bool,
    pub packages: Seq<CargoPackageModel>,
    pub dependency_edges: Seq<CargoDependencyEdgeModel>,
}

impl DeepView for CargoFacts {
    type V = CargoFactsModel;

    open spec fn deep_view(&self) -> CargoFactsModel {
        CargoFactsModel {
            available: self.available,
            packages: self.packages.deep_view(),
            dependency_edges: self.dependency_edges.deep_view(),
        }
    }
}

impl Duplicate for CargoFacts {
    fn duplicate(&self) -> (r: CargoFacts) {
        CargoFacts {
            available: self.available,
            packages: list::duplicate_all(&self.packages),
            dependency_edges: list::duplicate_all(&self.dependency_edges),
        }
    }
}

impl Default for CargoFacts {
    fn default() -> (r: CargoFacts)
        ensures
            r.deep_view() == (CargoFactsModel {
                available: false,
                packages: seq![],
                dependency_edges: seq![],
            }),
    {
        let r = CargoFacts {
            available: false,
            packages: Vec::new(),
            dependency_edges: Vec::new(),
        };
        assert(r.packages.deep_view() =~= Seq::empty());
        assert(r.dependency_edges.deep_view() =~= Seq::empty());
        r
    }
}

impl ToJson for CargoFacts {
    open spec fn json(value: CargoFactsModel) -> JsonModel {
        JsonModel::Object(
            seq![
                ("available"@, JsonModel::Bool(value.available)),
                ("packages"@, json::item_array::<CargoPackage>(value.packages)),
                ("dependency_edges"@, json::item_array::<CargoDependencyEdge>(value.dependency_edges)),
            ],
        )
    }

    fn to_json(&self) -> (r: Json) {
        let mut members: Vec<JsonMember> = Vec::new();
        assert(json::member_models(members@) =~= Seq::empty());
        json::put(&mut members, "available", Json::Bool(self.available));
        json::put(&mut members, "packages", json::of_items(&self.packages));
        json::put(&mut members, "dependency_edges", json::of_items(&self.dependency_edges));
        assert(json::member_models(members@) =~= Self::json(self.deep_view())->Object_0);
        json::of_members(members)
    }
}

#[derive(Clone, Debug, PartialEq, Eq)]
pub struct RepositoryMapIndex {
    pub schema: String,
    pub files: Vec<FileFact>,
    pub cargo: CargoFacts,
    pub omissions: OmissionCounts,
    pub completeness: Completeness,
}

/// What a `RepositoryMapIndex` says.
pub struct RepositoryMapIndexModel {
    pub schema: Seq<char>,
    pub files: Seq<FileFactModel>,
    pub cargo: CargoFactsModel,
    pub omissions: OmissionCountsModel,
    pub completeness: Completeness,
}

impl DeepView for RepositoryMapIndex {
    type V = RepositoryMapIndexModel;

    open spec fn deep_view(&self) -> RepositoryMapIndexModel {
        RepositoryMapIndexModel {
            schema: self.schema@,
            files: self.files.deep_view(),
            cargo: self.cargo.deep_view(),
            omissions: self.omissions.deep_view(),
            completeness: self.completeness,
        }
    }
}

impl Duplicate for RepositoryMapIndex {
    fn duplicate(&self) -> (r: RepositoryMapIndex) {
        RepositoryMapIndex {
            schema: text::copy(self.schema.as_str()),
            files: list::duplicate_all(&self.files),
            cargo: self.cargo.duplicate(),
            omissions: self.omissions.duplicate(),
            completeness: self.completeness,
        }
    }
}

impl ToJson for RepositoryMapIndex {
    open spec fn json(value: RepositoryMapIndexModel) -> JsonModel {
        JsonModel::Object(
            seq![
                ("schema"@, JsonModel::Text(value.schema)),
                ("files"@, json::item_array::<FileFact>(value.files)),
                ("cargo"@, CargoFacts::json(value.cargo)),
                ("omissions"@, OmissionCounts::json(value.omissions)),
                ("completeness"@, Completeness::json(value.completeness)),
            ],
        )
    }

    fn to_json(&self) -> (r: Json) {
        let mut members: Vec<JsonMember> = Vec::new();
        assert(json::member_models(members@) =~= Seq::empty());
        json::put(&mut members, "schema", json::of_text(self.schema.as_str()));
        json::put(&mut members, "files", json::of_items(&self.files));
        json::put(&mut members, "cargo", self.cargo.to_json());
        json::put(&mut members, "omissions", self.omissions.to_json());
        json::put(&mut members, "completeness", self.completeness.to_json());
        assert(json::member_models(members@) =~= Self::json(self.deep_view())->Object_0);
        json::of_members(members)
    }
}

#[derive(Clone, Debug, PartialEq, Eq)]
pub struct RefreshResult {
    pub index: RepositoryMapIndex,
    pub reused_files: u64,
    pub reparsed_files: u64,
    pub deleted_files: u64,
}

/// What a `RefreshResult` says.
pub struct RefreshResultModel {
    pub index: RepositoryMapIndexModel,
    pub reused_files: nat,
    pub reparsed_files: nat,
    pub deleted_files: nat,
}

impl DeepView for RefreshResult {
    type V = RefreshResultModel;

    open spec fn deep_view(&self) -> RefreshResultModel {
        RefreshResultModel {
            index: self.index.deep_view(),
            reused_files: self.reused_files as nat,
            reparsed_files: self.reparsed_files as nat,
            deleted_files: self.deleted_files as nat,
        }
    }
}

#[derive(Clone, Debug, PartialEq, Eq)]
pub struct InventoryPackage {
    pub name: String,
    pub version: String,
    pub targets: Vec<CargoTarget>,
}

/// What a `InventoryPackage` says.
pub struct InventoryPackageModel {
    pub name: Seq<char>,
    pub version: Seq<char>,
    pub targets: Seq<CargoTargetModel>,
}

impl DeepView for InventoryPackage {
    type V = InventoryPackageModel;

    open spec fn deep_view(&self) -> InventoryPackageModel {
        InventoryPackageModel {
            name: self.name@,
            version: self.version@,
            targets: self.targets.deep_view(),
        }
    }
}

impl Duplicate for InventoryPackage {
    fn duplicate(&self) -> (r: InventoryPackage) {
        InventoryPackage {
            name: text::copy(self.name.as_str()),
            version: text::copy(self.version.as_str()),
            targets: list::duplicate_all(&self.targets),
        }
    }
}

impl ToJson for InventoryPackage {
    open spec fn json(value: InventoryPackageModel) -> JsonModel {
        JsonModel::Object(
            seq![
                ("name"@, JsonModel::Text(value.name)),
                ("version"@, JsonModel::Text(value.version)),
                ("targets"@, json::item_array::<CargoTarget>(value.targets)),
            ],
        )
    }

    fn to_json(&self) -> (r: Json) {
        let mut members: Vec<JsonMember> = Vec::new();
        assert(json::member_models(members@) =~= Seq::empty());
        json::put(&mut members, "name", json::of_text(self.name.as_str()));
        json::put(&mut members, "version", json::of_text(self.version.as_str()));
        json::put(&mut members, "targets", json::of_items(&self.targets));
        assert(json::member_models(members@) =~= Self::json(self.deep_view())->Object_0);
        json::of_members(members)
    }
}

#[derive(Clone, Debug, PartialEq, Eq)]
pub struct RepositoryInventory {
    pub schema: String,
    pub indexed_files: u64,
    pub projected_files: u64,
    pub omitted_files: u64,
    pub source_paths: Vec<String>,
    pub test_paths: Vec<String>,
    pub manifest_paths: Vec<String>,
    pub configuration_paths: Vec<String>,
    pub packages: Vec<InventoryPackage>,
    pub indexed_packages: u64,
    pub omitted_packages: u64,
    pub indexed_targets: u64,
    pub omitted_targets: u64,
    pub projection_complete: bool,
    pub completeness: Completeness,
}

/// What a `RepositoryInventory` says.
pub struct RepositoryInventoryModel {
    pub schema: Seq<char>,
    pub indexed_files: nat,
    pub projected_files: nat,
    pub omitted_files: nat,
    pub source_paths: Seq<Seq<char>>,
    pub test_paths: Seq<Seq<char>>,
    pub manifest_paths: Seq<Seq<char>>,
    pub configuration_paths: Seq<Seq<char>>,
    pub packages: Seq<InventoryPackageModel>,
    pub indexed_packages: nat,
    pub omitted_packages: nat,
    pub indexed_targets: nat,
    pub omitted_targets: nat,
    pub projection_complete: bool,
    pub completeness: Completeness,
}

impl DeepView for RepositoryInventory {
    type V = RepositoryInventoryModel;

    open spec fn deep_view(&self) -> RepositoryInventoryModel {
        RepositoryInventoryModel {
            schema: self.schema@,
            indexed_files: self.indexed_files as nat,
            projected_files: self.projected_files as nat,
            omitted_files: self.omitted_files as nat,
            source_paths: self.source_paths.deep_view(),
            test_paths: self.test_paths.deep_view(),
            manifest_paths: self.manifest_paths.deep_view(),
            configuration_paths: self.configuration_paths.deep_view(),
            packages: self.packages.deep_view(),
            indexed_packages: self.indexed_packages as nat,
            omitted_packages: self.omitted_packages as nat,
            indexed_targets: self.indexed_targets as nat,
            omitted_targets: self.omitted_targets as nat,
            projection_complete: self.projection_complete,
            completeness: self.completeness,
        }
    }
}

impl ToJson for RepositoryInventory {
    open spec fn json(value: RepositoryInventoryModel) -> JsonModel {
        JsonModel::Object(
            seq![
                ("schema"@, JsonModel::Text(value.schema)),
                ("indexed_files"@, json::count_model(value.indexed_files)),
                ("projected_files"@, json::count_model(value.projected_files)),
                ("omitted_files"@, json::count_model(value.omitted_files)),
                ("source_paths"@, json::text_array(value.source_paths)),
                ("test_paths"@, json::text_array(value.test_paths)),
                ("manifest_paths"@, json::text_array(value.manifest_paths)),
                ("configuration_paths"@, json::text_array(value.configuration_paths)),
                ("packages"@, json::item_array::<InventoryPackage>(value.packages)),
                ("indexed_packages"@, json::count_model(value.indexed_packages)),
                ("omitted_packages"@, json::count_model(value.omitted_packages)),
                ("indexed_targets"@, json::count_model(value.indexed_targets)),
                ("omitted_targets"@, json::count_model(value.omitted_targets)),
                ("projection_complete"@, JsonModel::Bool(value.projection_complete)),
                ("completeness"@, Completeness::json(value.completeness)),
            ],
        )
    }

    fn to_json(&self) -> (r: Json) {
        let mut members: Vec<JsonMember> = Vec::new();
        assert(json::member_models(members@) =~= Seq::empty());
        json::put(&mut members, "schema", json::of_text(self.schema.as_str()));
        json::put(&mut members, "indexed_files", json::of_count(self.indexed_files));
        json::put(&mut members, "projected_files", json::of_count(self.projected_files));
        json::put(&mut members, "omitted_files", json::of_count(self.omitted_files));
        json::put(&mut members, "source_paths", json::of_texts(&self.source_paths));
        json::put(&mut members, "test_paths", json::of_texts(&self.test_paths));
        json::put(&mut members, "manifest_paths", json::of_texts(&self.manifest_paths));
        json::put(&mut members, "configuration_paths", json::of_texts(&self.configuration_paths));
        json::put(&mut members, "packages", json::of_items(&self.packages));
        json::put(&mut members, "indexed_packages", json::of_count(self.indexed_packages));
        json::put(&mut members, "omitted_packages", json::of_count(self.omitted_packages));
        json::put(&mut members, "indexed_targets", json::of_count(self.indexed_targets));
        json::put(&mut members, "omitted_targets", json::of_count(self.omitted_targets));
        json::put(&mut members, "projection_complete", Json::Bool(self.projection_complete));
        json::put(&mut members, "completeness", self.completeness.to_json());
        assert(json::member_models(members@) =~= Self::json(self.deep_view())->Object_0);
        json::of_members(members)
    }
}

#[derive(Clone, Debug, PartialEq, Eq)]
pub struct SymbolMatch {
    pub file: String,
    pub definition: DefinitionFact,
}

/// What a `SymbolMatch` says.
pub struct SymbolMatchModel {
    pub file: Seq<char>,
    pub definition: DefinitionFactModel,
}

impl DeepView for SymbolMatch {
    type V = SymbolMatchModel;

    open spec fn deep_view(&self) -> SymbolMatchModel {
        SymbolMatchModel {
            file: self.file@,
            definition: self.definition.deep_view(),
        }
    }
}

#[derive(Clone, Debug, PartialEq, Eq)]
pub struct ImportMatch {
    pub file: String,
    pub import: ImportFact,
}

/// What a `ImportMatch` says.
pub struct ImportMatchModel {
    pub file: Seq<char>,
    pub import: ImportFactModel,
}

impl DeepView for ImportMatch {
    type V = ImportMatchModel;

    open spec fn deep_view(&self) -> ImportMatchModel {
        ImportMatchModel {
            file: self.file@,
            import: self.import.deep_view(),
        }
    }
}

#[derive(Clone, Debug, PartialEq, Eq)]
pub struct ReferenceMatch {
    pub file: String,
    pub reference: ReferenceFact,
}

/// What a `ReferenceMatch` says.
pub struct ReferenceMatchModel {
    pub file: Seq<char>,
    pub reference: ReferenceFactModel,
}

impl DeepView for ReferenceMatch {
    type V = ReferenceMatchModel;

    open spec fn deep_view(&self) -> ReferenceMatchModel {
        ReferenceMatchModel {
            file: self.file@,
            reference: self.reference.deep_view(),
        }
    }
}

#[derive(Clone, Debug, PartialEq, Eq)]
pub struct TestMatch {
    pub file: String,
    pub test: TestFact,
}

/// What a `TestMatch` says.
pub struct TestMatchModel {
    pub file: Seq<char>,
    pub test: TestFactModel,
}

impl DeepView for TestMatch {
    type V = TestMatchModel;

    open spec fn deep_view(&self) -> TestMatchModel {
        TestMatchModel {
            file: self.file@,
            test: self.test.deep_view(),
        }
    }
}

#[derive(Clone, Debug, PartialEq, Eq)]
pub enum RepositoryMapError {
    Io(String),
    Json(String),
    NoGitServiceDirectory,
    StateRootOutsideGitService,
    InvalidWorkspace,
    IndexTooLarge,
    FileChangedDuringRefresh,
    InvalidPrivateRequest,
}

/// What a `RepositoryMapError` says.
pub enum RepositoryMapErrorModel {
    Io(Seq<char>),
    Json(Seq<char>),
    NoGitServiceDirectory,
    StateRootOutsideGitService,
    InvalidWorkspace,
    IndexTooLarge,
    FileChangedDuringRefresh,
    InvalidPrivateRequest,
}

impl DeepView for RepositoryMapError {
    type V = RepositoryMapErrorModel;

    open spec fn deep_view(&self) -> RepositoryMapErrorModel {
        match self {
            RepositoryMapError::Io(e) => RepositoryMapErrorModel::Io(e@),
            RepositoryMapError::Json(e) => RepositoryMapErrorModel::Json(e@),
            RepositoryMapError::NoGitServiceDirectory => {
                RepositoryMapErrorModel::NoGitServiceDirectory
            },
            RepositoryMapError::StateRootOutsideGitService => {
                RepositoryMapErrorModel::StateRootOutsideGitService
            },
            RepositoryMapError::InvalidWorkspace => RepositoryMapErrorModel::InvalidWorkspace,
            RepositoryMapError::IndexTooLarge => RepositoryMapErrorModel::IndexTooLarge,
            RepositoryMapError::FileChangedDuringRefresh => {
                RepositoryMapErrorModel::FileChangedDuringRefresh
            },
            RepositoryMapError::InvalidPrivateRequest => {
                RepositoryMapErrorModel::InvalidPrivateRequest
            },
        }
    }
}

impl RepositoryMapErrorModel {
    pub open spec fn message(self) -> Seq<char> {
        match self {
            RepositoryMapErrorModel::Io(e) => "repository map I/O: "@ + e,
            RepositoryMapErrorModel::Json(e) => "repository map JSON: "@ + e,
            RepositoryMapErrorModel::NoGitServiceDirectory => {
                "workspace has no Git service directory"@
            },
            RepositoryMapErrorModel::StateRootOutsideGitService => {
                "state root is not inside the Git service directory"@
            },
            RepositoryMapErrorModel::InvalidWorkspace => "workspace is not a directory"@,
            RepositoryMapErrorModel::IndexTooLarge => {
                "bounded repository index cannot fit in the index limit"@
            },
            RepositoryMapErrorModel::FileChangedDuringRefresh => {
                "file changed during repository refresh"@
            },
            RepositoryMapErrorModel::InvalidPrivateRequest => {
                "private repository request is invalid"@
            },
        }
    }
}

impl RepositoryMapError {
    /// The error as a sentence for a person.
    pub fn message(&self) -> (r: String)
        ensures
            r@ == self.deep_view().message(),
    {
        match self {
            RepositoryMapError::Io(e) => text::concat("repository map I/O: ", e.as_str()),
            RepositoryMapError::Json(e) => text::concat("repository map JSON: ", e.as_str()),
            RepositoryMapError::NoGitServiceDirectory => {
                text::copy("workspace has no Git service directory")
            },
            RepositoryMapError::StateRootOutsideGitService => {
                text::copy("state root is not inside the Git service directory")
            },
            RepositoryMapError::InvalidWorkspace => text::copy("workspace is not a directory"),
            RepositoryMapError::IndexTooLarge => {
                text::copy("bounded repository index cannot fit in the index limit")
            },
            RepositoryMapError::FileChangedDuringRefresh => {
                text::copy("file changed during repository refresh")
            },
            RepositoryMapError::InvalidPrivateRequest => {
                text::copy("private repository request is invalid")
            },
        }
    }
}

/// The language of a file, by the end of its path.
pub open spec fn language_of(path: Seq<char>) -> LanguageClass {
    if text::finishes(path, ".rs"@) {
        LanguageClass::Rust
    } else if text::finishes(path, ".toml"@) {
        LanguageClass::Toml
    } else if text::finishes(path, ".md"@) || text::finishes(path, ".txt"@) || text::finishes(
        path,
        ".rst"@,
    ) {
        LanguageClass::Text
    } else {
        LanguageClass::Other
    }
}

/// The part that a file plays, by its path.
pub open spec fn class_of(path: Seq<char>) -> FileClassification {
    let name = text::base_name(path);
    if text::lowered(name) == "cargo.toml"@ {
        FileClassification::Manifest
    } else if text::begins(path, "tests/"@) || text::has(path, "/tests/"@) || text::finishes(
        name,
        "_test.rs"@,
    ) {
        FileClassification::Test
    } else if name == "Cargo.lock"@ || name == ".gitignore"@ || name == ".cargo/config.toml"@ || name
        == "rust-toolchain"@ || name == "rust-toolchain.toml"@ {
        FileClassification::Configuration
    } else if text::finishes(path, ".rs"@) {
        FileClassification::Source
    } else {
        FileClassification::Other
    }
}

/// The language of a file.
pub fn language_for(path: &str) -> (r: LanguageClass)
    ensures
        r == language_of(path@),
{
    let chars = text::to_chars(path);
    let chars = chars.as_slice();
    if text::ends_with(chars, ".rs") {
        LanguageClass::Rust
    } else if text::ends_with(chars, ".toml") {
        LanguageClass::Toml
    } else if text::ends_with(chars, ".md") || text::ends_with(chars, ".txt") || text::ends_with(
        chars,
        ".rst",
    ) {
        LanguageClass::Text
    } else {
        LanguageClass::Other
    }
}

/// The part that a file plays.
pub fn classify_path(path: &str) -> (r: FileClassification)
    ensures
        r == class_of(path@),
{
    let chars = text::to_chars(path);
    let chars = chars.as_slice();
    let name = text::file_name(chars);
    if text::is(text::to_lower(name).as_slice(), "cargo.toml") {
        FileClassification::Manifest
    } else if text::starts_with(chars, "tests/") || text::contains(chars, "/tests/")
        || text::ends_with(name, "_test.rs") {
        FileClassification::Test
    } else if text::is(name, "Cargo.lock") || text::is(name, ".gitignore") || text::is(
        name,
        ".cargo/config.toml",
    ) || text::is(name, "rust-toolchain") || text::is(name, "rust-toolchain.toml") {
        FileClassification::Configuration
    } else if text::ends_with(chars, ".rs") {
        FileClassification::Source
    } else {
        FileClassification::Other
    }
}

/// A part of a path, read from `i` on, that is hidden.
pub open spec fn hidden_from(parts: Seq<Seq<char>>, i: int) -> bool
    decreases parts.len() - i,
{
    if i < 0 || i >= parts.len() {
        false
    } else {
        text::begins(parts[i], "."@) || hidden_from(parts, i + 1)
    }
}

/// Some part of the path begins with a dot.
pub open spec fn hidden(path: Seq<char>) -> bool {
    hidden_from(text::pieces(path, '/'), 0)
}

/// Some part of the path begins with a dot.
pub fn is_hidden_path(path: &str) -> (r: bool)
    ensures
        r == hidden(path@),
{
    let chars = text::to_chars(path);
    let parts = text::split(chars.as_slice(), '/');
    let ghost all = text::views(parts@);
    let mut i: usize = 0;
    while i < parts.len()
        invariant
            i <= parts@.len(),
            all == text::views(parts@),
            all == text::pieces(path@, '/'),
            hidden_from(all, 0) == hidden_from(all, i as int),
        decreases parts@.len() - i,
    {
        assert(all[i as int] == parts@[i as int]@);
        if text::starts_with(parts[i], ".") {
            return true;
        }
        i += 1;
    }
    false
}

/// A part of a path, read from `i` on, that stands for no name.
pub open spec fn nameless_from(parts: Seq<Seq<char>>, i: int) -> bool
    decreases parts.len() - i,
{
    if i < 0 || i >= parts.len() {
        false
    } else {
        parts[i].len() == 0 || parts[i] == "."@ || parts[i] == ".."@ || nameless_from(parts, i + 1)
    }
}

/// A path that stays below where it starts, with forward slashes and no drive letter.
pub open spec fn safe_path(path: Seq<char>) -> bool {
    &&& !text::begins(path, "/"@)
    &&& !path.contains('\\')
    &&& !(vstd::utf8::encode_utf8(path).len() > 1 && vstd::utf8::encode_utf8(path)[1] == 58u8)
    &&& !nameless_from(text::pieces(path, '/'), 0)
}

/// The path stays below where it starts.
pub fn is_safe_relative_path(path: &str) -> (r: bool)
    ensures
        r == safe_path(path@),
{
    let chars = text::to_chars(path);
    if text::starts_with(chars.as_slice(), "/") || text::holds(chars.as_slice(), '\\') {
        return false;
    }
    let raw = path.as_bytes();
    if raw.len() > 1 && raw[1] == 58 {
        return false;
    }
    let parts = text::split(chars.as_slice(), '/');
    let ghost all = text::views(parts@);
    let mut i: usize = 0;
    while i < parts.len()
        invariant
            i <= parts@.len(),
            all == text::views(parts@),
            all == text::pieces(path@, '/'),
            nameless_from(all, 0) == nameless_from(all, i as int),
        decreases parts@.len() - i,
    {
        assert(all[i as int] == parts@[i as int]@);
        if parts[i].len() == 0 || text::is(parts[i], ".") || text::is(parts[i], "..") {
            return false;
        }
        i += 1;
    }
    true
}

pub open spec fn hex_digit(c: char) -> bool {
    text::ascii_digit(c) || ('a' <= c && c <= 'f') || ('A' <= c && c <= 'F')
}

/// A digest as it is written: sixty-four hexadecimal digits.
pub open spec fn digest_text(s: Seq<char>) -> bool {
    s.len() == 64 && forall|i: int| 0 <= i < s.len() ==> hex_digit(#[trigger] s[i])
}

/// A fact that an index may hold: its path is safe, and it has a digest unless the file
/// is too large.
pub open spec fn fact_is_valid(file: FileFactModel) -> bool {
    safe_path(file.path) && match file.sha256 {
        Some(digest) => digest_text(digest),
        None => file.bytes > MAX_INDEXED_FILE_BYTES,
    }
}

/// The files are in the order of their paths, each path once, from `i` on.
pub open spec fn paths_increase_from(files: Seq<FileFactModel>, i: int) -> bool
    decreases files.len() - i,
{
    i < 0 || i + 1 >= files.len() || (text::before(files[i].path, files[i + 1].path)
        && paths_increase_from(files, i + 1))
}

/// An index that may be used: every fact is valid, and the paths increase.
pub open spec fn valid_index(index: RepositoryMapIndexModel) -> bool {
    &&& paths_increase_from(index.files, 0)
    &&& forall|i: int| 0 <= i < index.files.len() ==> fact_is_valid(#[trigger] index.files[i])
}

fn is_digest(digest: &str) -> (r: bool)
    ensures
        r == digest_text(digest@),
{
    let chars = text::to_chars(digest);
    if chars.len() != 64 {
        return false;
    }
    let mut i: usize = 0;
    while i < chars.len()
        invariant
            i <= chars@.len(),
            chars@ == digest@,
            forall|k: int| 0 <= k < i ==> hex_digit(#[trigger] chars@[k]),
        decreases chars@.len() - i,
    {
        let c = chars[i];
        if !(text::is_digit(c) || ('a' <= c && c <= 'f') || ('A' <= c && c <= 'F')) {
            assert(!hex_digit(chars@[i as int]));
            return false;
        }
        i += 1;
    }
    true
}

/// The index may be used.
pub fn index_is_valid(index: &RepositoryMapIndex) -> (r: bool)
    ensures
        r == valid_index(index.deep_view()),
{
    let ghost all = index.files.deep_view();
    let count: usize = index.files.len();
    let mut i: usize = 0;
    while i < count && count - i > 1
        invariant
            i <= count,
            count == index.files@.len(),
            all == index.files.deep_view(),
            paths_increase_from(all, 0) == paths_increase_from(all, i as int),
        decreases count - i,
    {
        assert(all[i as int] == index.files@[i as int].deep_view());
        assert(all[i + 1] == index.files@[i + 1].deep_view());
        if !text::precedes(index.files[i].path.as_str(), index.files[i + 1].path.as_str()) {
            return false;
        }
        i += 1;
    }
    assert(paths_increase_from(all, 0));
    let mut k: usize = 0;
    while k < count
        invariant
            k <= count,
            count == index.files@.len(),
            all == index.files.deep_view(),
            forall|j: int| 0 <= j < k ==> fact_is_valid(#[trigger] all[j]),
        decreases count - k,
    {
        assert(all[k as int] == index.files@[k as int].deep_view());
        let file = &index.files[k];
        let digest_is_fine = match &file.sha256 {
            Some(digest) => is_digest(digest.as_str()),
            None => file.bytes > MAX_INDEXED_FILE_BYTES,
        };
        if !is_safe_relative_path(file.path.as_str()) || !digest_is_fine {
            assert(!fact_is_valid(all[k as int]));
            return false;
        }
        k += 1;
    }
    true
}

/// An index as it was read: one with another schema, or one that is not valid, is no index.
pub open spec fn accepted(index: Option<RepositoryMapIndexModel>) -> Option<
    RepositoryMapIndexModel,
> {
    match index {
        Some(index) => if index.schema == INDEX_SCHEMA@ && valid_index(index) {
            Some(index)
        } else {
            None
        },
        None => None,
    }
}

/// Takes only a compatible, valid index. `index` is what was read from the bytes, and
/// nothing where they could not be read.
pub fn decode_index(index: Option<RepositoryMapIndex>) -> (r: Option<RepositoryMapIndex>)
    ensures
        r.deep_view() == accepted(index.deep_view()),
{
    match index {
        Some(index) => {
            if text::same_text(index.schema.as_str(), INDEX_SCHEMA) && index_is_valid(&index) {
                Some(index)
            } else {
                None
            }
        },
        None => None,
    }
}

/// How many files the counts speak of.
pub open spec fn omitted_files(omissions: OmissionCountsModel) -> nat {
    omissions.walked_limit + omissions.walk_errors + omissions.symlinks + omissions.invalid_paths
        + omissions.path_too_long + omissions.index_limit
}

/// Something was left out.
pub open spec fn bounded_by(omissions: OmissionCountsModel) -> bool {
    omitted_files(omissions) > 0 || omissions.oversized_files > 0 || omissions.malformed_rust > 0
}

/// How complete an index is.
pub open spec fn completeness_of(omissions: OmissionCountsModel, available: bool) -> Completeness {
    match (bounded_by(omissions), available) {
        (false, true) => Completeness::Complete,
        (true, true) => Completeness::Bounded,
        (false, false) => Completeness::CargoUnavailable,
        (true, false) => Completeness::BoundedAndCargoUnavailable,
    }
}

/// Something was left out.
pub fn has_omissions(omissions: &OmissionCounts) -> (r: bool)
    ensures
        r == bounded_by(omissions.deep_view()),
{
    omissions.walked_limit > 0 || omissions.walk_errors > 0 || omissions.symlinks > 0
        || omissions.invalid_paths > 0 || omissions.path_too_long > 0 || omissions.index_limit > 0
        || omissions.oversized_files > 0 || omissions.malformed_rust > 0
}

/// How complete an index is.
pub fn completeness_for(omissions: &OmissionCounts, available: bool) -> (r: Completeness)
    ensures
        r == completeness_of(omissions.deep_view(), available),
{
    match (has_omissions(omissions), available) {
        (false, true) => Completeness::Complete,
        (true, true) => Completeness::Bounded,
        (false, false) => Completeness::CargoUnavailable,
        (true, false) => Completeness::BoundedAndCargoUnavailable,
    }
}

/// An index with the completeness that its omissions and its packages give it.
pub open spec fn finalized(index: RepositoryMapIndexModel) -> RepositoryMapIndexModel {
    RepositoryMapIndexModel {
        completeness: completeness_of(index.omissions, index.cargo.available),
        ..index
    }
}

/// Gives the index the completeness that its omissions and its packages give it.
pub fn finalize_completeness(index: &mut RepositoryMapIndex)
    ensures
        final(index).deep_view() == finalized(old(index).deep_view()),
{
    index.completeness = completeness_for(&index.omissions, index.cargo.available);
}

/// How many files the counts speak of.
pub fn omitted_file_count(omissions: &OmissionCounts) -> (r: u64)
    requires
        omitted_files(omissions.deep_view()) <= u64::MAX,
    ensures
        r == omitted_files(omissions.deep_view()),
{
    omissions.walked_limit + omissions.walk_errors + omissions.symlinks + omissions.invalid_paths
        + omissions.path_too_long + omissions.index_limit
}

} // verus!
