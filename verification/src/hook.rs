//! What the hooks say: the projections of results, and how they are written.

use vstd::prelude::*;
use crate::json;
use crate::json::{Json, JsonMember, JsonModel, ToJson};
use crate::observe;

pub mod commands;
pub mod laws;
pub mod projections;
pub mod reply;

verus! {

broadcast use vstd::string::group_string_axioms;

/// A finding as it is shown.
#[derive(Clone, Debug, PartialEq, Eq)]
pub struct ModelDiagnostic {
    pub kind: String,
    pub code: Option<String>,
    pub suite: Option<String>,
    pub test: Option<String>,
    pub message: String,
    pub location: Option<String>,
    pub related_locations: Vec<String>,
}

/// What a `ModelDiagnostic` says.
pub struct ModelDiagnosticModel {
    pub kind: Seq<char>,
    pub code: Option<Seq<char>>,
    pub suite: Option<Seq<char>>,
    pub test: Option<Seq<char>>,
    pub message: Seq<char>,
    pub location: Option<Seq<char>>,
    pub related_locations: Seq<Seq<char>>,
}

impl DeepView for ModelDiagnostic {
    type V = ModelDiagnosticModel;

    open spec fn deep_view(&self) -> ModelDiagnosticModel {
        ModelDiagnosticModel {
            kind: self.kind@,
            code: self.code.deep_view(),
            suite: self.suite.deep_view(),
            test: self.test.deep_view(),
            message: self.message@,
            location: self.location.deep_view(),
            related_locations: self.related_locations.deep_view(),
        }
    }
}

impl ToJson for ModelDiagnostic {
    open spec fn json(value: ModelDiagnosticModel) -> JsonModel {
        JsonModel::Object(
            seq![
                ("kind"@, JsonModel::Text(value.kind)),
            ] + (match value.code {
                Some(code) => seq![("code"@, JsonModel::Text(code))],
                None => seq![],
            }) + (match value.suite {
                Some(suite) => seq![("suite"@, JsonModel::Text(suite))],
                None => seq![],
            }) + (match value.test {
                Some(test) => seq![("test"@, JsonModel::Text(test))],
                None => seq![],
            }) + seq![
                ("message"@, JsonModel::Text(value.message)),
            ] + (match value.location {
                Some(location) => seq![("location"@, JsonModel::Text(location))],
                None => seq![],
            }) + (if value.related_locations.len() > 0 {
                seq![("related_locations"@, json::text_array(value.related_locations))]
            } else {
                seq![]
            }),
        )
    }

    fn to_json(&self) -> (r: Json) {
        let mut members: Vec<JsonMember> = Vec::new();
        assert(json::member_models(members@) =~= Seq::empty());
        json::put(&mut members, "kind", json::of_text(self.kind.as_str()));
        if let Some(code) = &self.code {
            json::put(&mut members, "code", json::of_text(code.as_str()));
        }
        if let Some(suite) = &self.suite {
            json::put(&mut members, "suite", json::of_text(suite.as_str()));
        }
        if let Some(test) = &self.test {
            json::put(&mut members, "test", json::of_text(test.as_str()));
        }
        json::put(&mut members, "message", json::of_text(self.message.as_str()));
        if let Some(location) = &self.location {
            json::put(&mut members, "location", json::of_text(location.as_str()));
        }
        assert(self.related_locations.deep_view().len() == self.related_locations@.len());
        if self.related_locations.len() > 0 {
            json::put(&mut members, "related_locations", json::of_texts(&self.related_locations));
        }
        assert(json::member_models(members@) =~= Self::json(self.deep_view())->Object_0);
        json::of_members(members)
    }
}

/// The counts of tests as they are shown.
#[derive(Clone, Debug, PartialEq, Eq)]
pub struct ModelTests {
    pub passed: Option<u64>,
    pub failed: Option<u64>,
    pub ignored: Option<u64>,
}

/// What a `ModelTests` says.
pub struct ModelTestsModel {
    pub passed: Option<nat>,
    pub failed: Option<nat>,
    pub ignored: Option<nat>,
}

impl DeepView for ModelTests {
    type V = ModelTestsModel;

    open spec fn deep_view(&self) -> ModelTestsModel {
        ModelTestsModel {
            passed: observe::as_count(self.passed),
            failed: observe::as_count(self.failed),
            ignored: observe::as_count(self.ignored),
        }
    }
}

impl ToJson for ModelTests {
    open spec fn json(value: ModelTestsModel) -> JsonModel {
        JsonModel::Object(
            (match value.passed {
                Some(passed) => seq![("passed"@, json::count_model(passed))],
                None => seq![],
            }) + (match value.failed {
                Some(failed) => seq![("failed"@, json::count_model(failed))],
                None => seq![],
            }) + (match value.ignored {
                Some(ignored) => seq![("ignored"@, json::count_model(ignored))],
                None => seq![],
            }),
        )
    }

    fn to_json(&self) -> (r: Json) {
        let mut members: Vec<JsonMember> = Vec::new();
        assert(json::member_models(members@) =~= Seq::empty());
        if let Some(passed) = &self.passed {
            json::put(&mut members, "passed", json::of_count(*passed));
        }
        if let Some(failed) = &self.failed {
            json::put(&mut members, "failed", json::of_count(*failed));
        }
        if let Some(ignored) = &self.ignored {
            json::put(&mut members, "ignored", json::of_count(*ignored));
        }
        assert(json::member_models(members@) =~= Self::json(self.deep_view())->Object_0);
        json::of_members(members)
    }
}

/// A build or a run of tests as it is shown.
#[derive(Clone, Debug, PartialEq, Eq)]
pub struct BuildProjection {
    pub status: String,
    pub diagnostics: Vec<ModelDiagnostic>,
    pub tests: Option<ModelTests>,
    pub completeness: String,
}

/// What a `BuildProjection` says.
pub struct BuildProjectionModel {
    pub status: Seq<char>,
    pub diagnostics: Seq<ModelDiagnosticModel>,
    pub tests: Option<ModelTestsModel>,
    pub completeness: Seq<char>,
}

impl DeepView for BuildProjection {
    type V = BuildProjectionModel;

    open spec fn deep_view(&self) -> BuildProjectionModel {
        BuildProjectionModel {
            status: self.status@,
            diagnostics: self.diagnostics.deep_view(),
            tests: self.tests.deep_view(),
            completeness: self.completeness@,
        }
    }
}

impl ToJson for BuildProjection {
    open spec fn json(value: BuildProjectionModel) -> JsonModel {
        JsonModel::Object(
            seq![
                ("status"@, JsonModel::Text(value.status)),
                ("diagnostics"@, json::item_array::<ModelDiagnostic>(value.diagnostics)),
            ] + (match value.tests {
                Some(tests) => seq![("tests"@, ModelTests::json(tests))],
                None => seq![],
            }) + seq![
                ("completeness"@, JsonModel::Text(value.completeness)),
            ],
        )
    }

    fn to_json(&self) -> (r: Json) {
        let mut members: Vec<JsonMember> = Vec::new();
        assert(json::member_models(members@) =~= Seq::empty());
        json::put(&mut members, "status", json::of_text(self.status.as_str()));
        json::put(&mut members, "diagnostics", json::of_items(&self.diagnostics));
        if let Some(tests) = &self.tests {
            json::put(&mut members, "tests", tests.to_json());
        }
        json::put(&mut members, "completeness", json::of_text(self.completeness.as_str()));
        assert(json::member_models(members@) =~= Self::json(self.deep_view())->Object_0);
        json::of_members(members)
    }
}

#[derive(Clone, Debug, PartialEq, Eq)]
pub struct ModelHunk {
    pub old_start: u64,
    pub old_lines: u64,
    pub new_start: u64,
    pub new_lines: u64,
}

/// What a `ModelHunk` says.
pub struct ModelHunkModel {
    pub old_start: u64,
    pub old_lines: u64,
    pub new_start: u64,
    pub new_lines: u64,
}

impl DeepView for ModelHunk {
    type V = ModelHunkModel;

    open spec fn deep_view(&self) -> ModelHunkModel {
        ModelHunkModel {
            old_start: self.old_start,
            old_lines: self.old_lines,
            new_start: self.new_start,
            new_lines: self.new_lines,
        }
    }
}

impl ToJson for ModelHunk {
    open spec fn json(value: ModelHunkModel) -> JsonModel {
        JsonModel::Object(
            seq![
                ("old_start"@, json::count_model(value.old_start as nat)),
                ("old_lines"@, json::count_model(value.old_lines as nat)),
                ("new_start"@, json::count_model(value.new_start as nat)),
                ("new_lines"@, json::count_model(value.new_lines as nat)),
            ],
        )
    }

    fn to_json(&self) -> (r: Json) {
        let mut members: Vec<JsonMember> = Vec::new();
        assert(json::member_models(members@) =~= Seq::empty());
        json::put(&mut members, "old_start", json::of_count(self.old_start));
        json::put(&mut members, "old_lines", json::of_count(self.old_lines));
        json::put(&mut members, "new_start", json::of_count(self.new_start));
        json::put(&mut members, "new_lines", json::of_count(self.new_lines));
        assert(json::member_models(members@) =~= Self::json(self.deep_view())->Object_0);
        json::of_members(members)
    }
}

/// A changed file as it is shown.
#[derive(Clone, Debug, PartialEq, Eq)]
pub struct ModelFileDelta {
    pub old_path: Option<String>,
    pub new_path: Option<String>,
    pub change_kind: String,
    pub binary: bool,
    pub hunks: Vec<ModelHunk>,
    pub additions: u64,
    pub deletions: u64,
}

/// What a `ModelFileDelta` says.
pub struct ModelFileDeltaModel {
    pub old_path: Option<Seq<char>>,
    pub new_path: Option<Seq<char>>,
    pub change_kind: Seq<char>,
    pub binary: bool,
    pub hunks: Seq<ModelHunkModel>,
    pub additions: nat,
    pub deletions: nat,
}

impl DeepView for ModelFileDelta {
    type V = ModelFileDeltaModel;

    open spec fn deep_view(&self) -> ModelFileDeltaModel {
        ModelFileDeltaModel {
            old_path: self.old_path.deep_view(),
            new_path: self.new_path.deep_view(),
            change_kind: self.change_kind@,
            binary: self.binary,
            hunks: self.hunks.deep_view(),
            additions: self.additions as nat,
            deletions: self.deletions as nat,
        }
    }
}

impl ToJson for ModelFileDelta {
    open spec fn json(value: ModelFileDeltaModel) -> JsonModel {
        JsonModel::Object(
            (match value.old_path {
                Some(old_path) => seq![("old_path"@, JsonModel::Text(old_path))],
                None => seq![],
            }) + (match value.new_path {
                Some(new_path) => seq![("new_path"@, JsonModel::Text(new_path))],
                None => seq![],
            }) + seq![
                ("change_kind"@, JsonModel::Text(value.change_kind)),
                ("binary"@, JsonModel::Bool(value.binary)),
                ("hunks"@, json::item_array::<ModelHunk>(value.hunks)),
                ("additions"@, json::count_model(value.additions)),
                ("deletions"@, json::count_model(value.deletions)),
            ],
        )
    }

    fn to_json(&self) -> (r: Json) {
        let mut members: Vec<JsonMember> = Vec::new();
        assert(json::member_models(members@) =~= Seq::empty());
        if let Some(old_path) = &self.old_path {
            json::put(&mut members, "old_path", json::of_text(old_path.as_str()));
        }
        if let Some(new_path) = &self.new_path {
            json::put(&mut members, "new_path", json::of_text(new_path.as_str()));
        }
        json::put(&mut members, "change_kind", json::of_text(self.change_kind.as_str()));
        json::put(&mut members, "binary", Json::Bool(self.binary));
        json::put(&mut members, "hunks", json::of_items(&self.hunks));
        json::put(&mut members, "additions", json::of_count(self.additions));
        json::put(&mut members, "deletions", json::of_count(self.deletions));
        assert(json::member_models(members@) =~= Self::json(self.deep_view())->Object_0);
        json::of_members(members)
    }
}

#[derive(Clone, Debug, PartialEq, Eq)]
pub struct ModelDiffSummary {
    pub files_changed: u64,
    pub files_added: u64,
    pub files_deleted: u64,
    pub files_renamed: u64,
    pub binary_files: u64,
    pub additions: u64,
    pub deletions: u64,
}

/// What a `ModelDiffSummary` says.
pub struct ModelDiffSummaryModel {
    pub files_changed: nat,
    pub files_added: nat,
    pub files_deleted: nat,
    pub files_renamed: nat,
    pub binary_files: nat,
    pub additions: nat,
    pub deletions: nat,
}

impl DeepView for ModelDiffSummary {
    type V = ModelDiffSummaryModel;

    open spec fn deep_view(&self) -> ModelDiffSummaryModel {
        ModelDiffSummaryModel {
            files_changed: self.files_changed as nat,
            files_added: self.files_added as nat,
            files_deleted: self.files_deleted as nat,
            files_renamed: self.files_renamed as nat,
            binary_files: self.binary_files as nat,
            additions: self.additions as nat,
            deletions: self.deletions as nat,
        }
    }
}

impl ToJson for ModelDiffSummary {
    open spec fn json(value: ModelDiffSummaryModel) -> JsonModel {
        JsonModel::Object(
            seq![
                ("files_changed"@, json::count_model(value.files_changed)),
                ("files_added"@, json::count_model(value.files_added)),
                ("files_deleted"@, json::count_model(value.files_deleted)),
                ("files_renamed"@, json::count_model(value.files_renamed)),
                ("binary_files"@, json::count_model(value.binary_files)),
                ("additions"@, json::count_model(value.additions)),
                ("deletions"@, json::count_model(value.deletions)),
            ],
        )
    }

    fn to_json(&self) -> (r: Json) {
        let mut members: Vec<JsonMember> = Vec::new();
        assert(json::member_models(members@) =~= Seq::empty());
        json::put(&mut members, "files_changed", json::of_count(self.files_changed));
        json::put(&mut members, "files_added", json::of_count(self.files_added));
        json::put(&mut members, "files_deleted", json::of_count(self.files_deleted));
        json::put(&mut members, "files_renamed", json::of_count(self.files_renamed));
        json::put(&mut members, "binary_files", json::of_count(self.binary_files));
        json::put(&mut members, "additions", json::of_count(self.additions));
        json::put(&mut members, "deletions", json::of_count(self.deletions));
        assert(json::member_models(members@) =~= Self::json(self.deep_view())->Object_0);
        json::of_members(members)
    }
}

/// A diff as it is shown.
#[derive(Clone, Debug, PartialEq, Eq)]
pub struct DiffProjection {
    pub status: String,
    pub files: Vec<ModelFileDelta>,
    pub summary: ModelDiffSummary,
    pub completeness: String,
}

/// What a `DiffProjection` says.
pub struct DiffProjectionModel {
    pub status: Seq<char>,
    pub files: Seq<ModelFileDeltaModel>,
    pub summary: ModelDiffSummaryModel,
    pub completeness: Seq<char>,
}

impl DeepView for DiffProjection {
    type V = DiffProjectionModel;

    open spec fn deep_view(&self) -> DiffProjectionModel {
        DiffProjectionModel {
            status: self.status@,
            files: self.files.deep_view(),
            summary: self.summary.deep_view(),
            completeness: self.completeness@,
        }
    }
}

impl ToJson for DiffProjection {
    open spec fn json(value: DiffProjectionModel) -> JsonModel {
        JsonModel::Object(
            seq![
                ("status"@, JsonModel::Text(value.status)),
                ("files"@, json::item_array::<ModelFileDelta>(value.files)),
                ("summary"@, ModelDiffSummary::json(value.summary)),
                ("completeness"@, JsonModel::Text(value.completeness)),
            ],
        )
    }

    fn to_json(&self) -> (r: Json) {
        let mut members: Vec<JsonMember> = Vec::new();
        assert(json::member_models(members@) =~= Seq::empty());
        json::put(&mut members, "status", json::of_text(self.status.as_str()));
        json::put(&mut members, "files", json::of_items(&self.files));
        json::put(&mut members, "summary", self.summary.to_json());
        json::put(&mut members, "completeness", json::of_text(self.completeness.as_str()));
        assert(json::member_models(members@) =~= Self::json(self.deep_view())->Object_0);
        json::of_members(members)
    }
}

/// A command of which nothing else is known.
#[derive(Clone, Debug, PartialEq, Eq)]
pub struct CommandProjection {
    pub status: String,
    pub completeness: String,
}

/// What a `CommandProjection` says.
pub struct CommandProjectionModel {
    pub status: Seq<char>,
    pub completeness: Seq<char>,
}

impl DeepView for CommandProjection {
    type V = CommandProjectionModel;

    open spec fn deep_view(&self) -> CommandProjectionModel {
        CommandProjectionModel {
            status: self.status@,
            completeness: self.completeness@,
        }
    }
}

impl ToJson for CommandProjection {
    open spec fn json(value: CommandProjectionModel) -> JsonModel {
        JsonModel::Object(
            seq![
                ("status"@, JsonModel::Text(value.status)),
                ("completeness"@, JsonModel::Text(value.completeness)),
            ],
        )
    }

    fn to_json(&self) -> (r: Json) {
        let mut members: Vec<JsonMember> = Vec::new();
        assert(json::member_models(members@) =~= Seq::empty());
        json::put(&mut members, "status", json::of_text(self.status.as_str()));
        json::put(&mut members, "completeness", json::of_text(self.completeness.as_str()));
        assert(json::member_models(members@) =~= Self::json(self.deep_view())->Object_0);
        json::of_members(members)
    }
}

#[derive(Clone, Debug, PartialEq, Eq)]
pub struct ModelLogCounts {
    pub total: u64,
    pub passed: u64,
    pub failed: u64,
    pub skipped: u64,
    pub errors: u64,
}

/// What a `ModelLogCounts` says.
pub struct ModelLogCountsModel {
    pub total: nat,
    pub passed: nat,
    pub failed: nat,
    pub skipped: nat,
    pub errors: nat,
}

impl DeepView for ModelLogCounts {
    type V = ModelLogCountsModel;

    open spec fn deep_view(&self) -> ModelLogCountsModel {
        ModelLogCountsModel {
            total: self.total as nat,
            passed: self.passed as nat,
            failed: self.failed as nat,
            skipped: self.skipped as nat,
            errors: self.errors as nat,
        }
    }
}

impl ToJson for ModelLogCounts {
    open spec fn json(value: ModelLogCountsModel) -> JsonModel {
        JsonModel::Object(
            seq![
                ("total"@, json::count_model(value.total)),
                ("passed"@, json::count_model(value.passed)),
                ("failed"@, json::count_model(value.failed)),
                ("skipped"@, json::count_model(value.skipped)),
                ("errors"@, json::count_model(value.errors)),
            ],
        )
    }

    fn to_json(&self) -> (r: Json) {
        let mut members: Vec<JsonMember> = Vec::new();
        assert(json::member_models(members@) =~= Seq::empty());
        json::put(&mut members, "total", json::of_count(self.total));
        json::put(&mut members, "passed", json::of_count(self.passed));
        json::put(&mut members, "failed", json::of_count(self.failed));
        json::put(&mut members, "skipped", json::of_count(self.skipped));
        json::put(&mut members, "errors", json::of_count(self.errors));
        assert(json::member_models(members@) =~= Self::json(self.deep_view())->Object_0);
        json::of_members(members)
    }
}

/// A report as it is shown.
#[derive(Clone, Debug, PartialEq, Eq)]
pub struct LogProjection {
    pub format: String,
    pub status: String,
    pub diagnostics: Vec<ModelDiagnostic>,
    pub counts: ModelLogCounts,
    pub omitted: u64,
    pub completeness: String,
}

/// What a `LogProjection` says.
pub struct LogProjectionModel {
    pub format: Seq<char>,
    pub status: Seq<char>,
    pub diagnostics: Seq<ModelDiagnosticModel>,
    pub counts: ModelLogCountsModel,
    pub omitted: nat,
    pub completeness: Seq<char>,
}

impl DeepView for LogProjection {
    type V = LogProjectionModel;

    open spec fn deep_view(&self) -> LogProjectionModel {
        LogProjectionModel {
            format: self.format@,
            status: self.status@,
            diagnostics: self.diagnostics.deep_view(),
            counts: self.counts.deep_view(),
            omitted: self.omitted as nat,
            completeness: self.completeness@,
        }
    }
}

impl ToJson for LogProjection {
    open spec fn json(value: LogProjectionModel) -> JsonModel {
        JsonModel::Object(
            seq![
                ("format"@, JsonModel::Text(value.format)),
                ("status"@, JsonModel::Text(value.status)),
                ("diagnostics"@, json::item_array::<ModelDiagnostic>(value.diagnostics)),
                ("counts"@, ModelLogCounts::json(value.counts)),
                ("omitted"@, json::count_model(value.omitted)),
                ("completeness"@, JsonModel::Text(value.completeness)),
            ],
        )
    }

    fn to_json(&self) -> (r: Json) {
        let mut members: Vec<JsonMember> = Vec::new();
        assert(json::member_models(members@) =~= Seq::empty());
        json::put(&mut members, "format", json::of_text(self.format.as_str()));
        json::put(&mut members, "status", json::of_text(self.status.as_str()));
        json::put(&mut members, "diagnostics", json::of_items(&self.diagnostics));
        json::put(&mut members, "counts", self.counts.to_json());
        json::put(&mut members, "omitted", json::of_count(self.omitted));
        json::put(&mut members, "completeness", json::of_text(self.completeness.as_str()));
        assert(json::member_models(members@) =~= Self::json(self.deep_view())->Object_0);
        json::of_members(members)
    }
}

/// A result as it is shown, by the operation that gave it.
#[derive(Clone, Debug, PartialEq, Eq)]
pub enum ModelProjection {
    Build(BuildProjection),
    Test(BuildProjection),
    Diff(DiffProjection),
    Log(LogProjection),
    Command(CommandProjection),
}

/// What a `ModelProjection` says.
pub enum ModelProjectionModel {
    Build(BuildProjectionModel),
    Test(BuildProjectionModel),
    Diff(DiffProjectionModel),
    Log(LogProjectionModel),
    Command(CommandProjectionModel),
}

impl DeepView for ModelProjection {
    type V = ModelProjectionModel;

    open spec fn deep_view(&self) -> ModelProjectionModel {
        match self {
            ModelProjection::Build(result) => ModelProjectionModel::Build(result.deep_view()),
            ModelProjection::Test(result) => ModelProjectionModel::Test(result.deep_view()),
            ModelProjection::Diff(result) => ModelProjectionModel::Diff(result.deep_view()),
            ModelProjection::Log(result) => ModelProjectionModel::Log(result.deep_view()),
            ModelProjection::Command(result) => ModelProjectionModel::Command(result.deep_view()),
        }
    }
}

impl ToJson for ModelProjection {
    open spec fn json(value: ModelProjectionModel) -> JsonModel {
        let (operation, result) = match value {
            ModelProjectionModel::Build(result) => ("build"@, BuildProjection::json(result)),
            ModelProjectionModel::Test(result) => ("test"@, BuildProjection::json(result)),
            ModelProjectionModel::Diff(result) => ("diff"@, DiffProjection::json(result)),
            ModelProjectionModel::Log(result) => ("log"@, LogProjection::json(result)),
            ModelProjectionModel::Command(result) => ("command"@, CommandProjection::json(result)),
        };
        JsonModel::Object(
            seq![("operation"@, JsonModel::Text(operation)), ("result"@, result)],
        )
    }

    fn to_json(&self) -> (r: Json) {
        let (operation, result) = match self {
            ModelProjection::Build(result) => ("build", result.to_json()),
            ModelProjection::Test(result) => ("test", result.to_json()),
            ModelProjection::Diff(result) => ("diff", result.to_json()),
            ModelProjection::Log(result) => ("log", result.to_json()),
            ModelProjection::Command(result) => ("command", result.to_json()),
        };
        let mut members: Vec<JsonMember> = Vec::new();
        assert(json::member_models(members@) =~= Seq::empty());
        json::put(&mut members, "operation", json::of_text(operation));
        json::put(&mut members, "result", result);
        assert(json::member_models(members@) =~= Self::json(self.deep_view())->Object_0);
        json::of_members(members)
    }
}

/// What a hook answers behind a tool call.
#[derive(Clone, Debug, PartialEq, Eq)]
pub struct HookOutput {
    pub should_continue: bool,
    pub stop_reason: String,
}

/// What a `HookOutput` says.
pub struct HookOutputModel {
    pub should_continue: bool,
    pub stop_reason: Seq<char>,
}

impl DeepView for HookOutput {
    type V = HookOutputModel;

    open spec fn deep_view(&self) -> HookOutputModel {
        HookOutputModel {
            should_continue: self.should_continue,
            stop_reason: self.stop_reason@,
        }
    }
}

impl ToJson for HookOutput {
    open spec fn json(value: HookOutputModel) -> JsonModel {
        JsonModel::Object(
            seq![
                ("continue"@, JsonModel::Bool(value.should_continue)),
                ("stopReason"@, JsonModel::Text(value.stop_reason)),
            ],
        )
    }

    fn to_json(&self) -> (r: Json) {
        let mut members: Vec<JsonMember> = Vec::new();
        assert(json::member_models(members@) =~= Seq::empty());
        json::put(&mut members, "continue", Json::Bool(self.should_continue));
        json::put(&mut members, "stopReason", json::of_text(self.stop_reason.as_str()));
        assert(json::member_models(members@) =~= Self::json(self.deep_view())->Object_0);
        json::of_members(members)
    }
}

#[derive(Clone, Debug, PartialEq, Eq)]
pub struct UpdatedBashInput {
    pub command: String,
}

/// What a `UpdatedBashInput` says.
pub struct UpdatedBashInputModel {
    pub command: Seq<char>,
}

impl DeepView for UpdatedBashInput {
    type V = UpdatedBashInputModel;

    open spec fn deep_view(&self) -> UpdatedBashInputModel {
        UpdatedBashInputModel {
            command: self.command@,
        }
    }
}

impl ToJson for UpdatedBashInput {
    open spec fn json(value: UpdatedBashInputModel) -> JsonModel {
        JsonModel::Object(
            seq![
                ("command"@, JsonModel::Text(value.command)),
            ],
        )
    }

    fn to_json(&self) -> (r: Json) {
        let mut members: Vec<JsonMember> = Vec::new();
        assert(json::member_models(members@) =~= Seq::empty());
        json::put(&mut members, "command", json::of_text(self.command.as_str()));
        assert(json::member_models(members@) =~= Self::json(self.deep_view())->Object_0);
        json::of_members(members)
    }
}

#[derive(Clone, Debug, PartialEq, Eq)]
pub struct PreToolUseSpecificOutput {
    pub hook_event_name: String,
    pub permission_decision: String,
    pub updated_input: UpdatedBashInput,
}

/// What a `PreToolUseSpecificOutput` says.
pub struct PreToolUseSpecificOutputModel {
    pub hook_event_name: Seq<char>,
    pub permission_decision: Seq<char>,
    pub updated_input: UpdatedBashInputModel,
}

impl DeepView for PreToolUseSpecificOutput {
    type V = PreToolUseSpecificOutputModel;

    open spec fn deep_view(&self) -> PreToolUseSpecificOutputModel {
        PreToolUseSpecificOutputModel {
            hook_event_name: self.hook_event_name@,
            permission_decision: self.permission_decision@,
            updated_input: self.updated_input.deep_view(),
        }
    }
}

impl ToJson for PreToolUseSpecificOutput {
    open spec fn json(value: PreToolUseSpecificOutputModel) -> JsonModel {
        JsonModel::Object(
            seq![
                ("hookEventName"@, JsonModel::Text(value.hook_event_name)),
                ("permissionDecision"@, JsonModel::Text(value.permission_decision)),
                ("updatedInput"@, UpdatedBashInput::json(value.updated_input)),
            ],
        )
    }

    fn to_json(&self) -> (r: Json) {
        let mut members: Vec<JsonMember> = Vec::new();
        assert(json::member_models(members@) =~= Seq::empty());
        json::put(&mut members, "hookEventName", json::of_text(self.hook_event_name.as_str()));
        json::put(&mut members, "permissionDecision", json::of_text(self.permission_decision.as_str()));
        json::put(&mut members, "updatedInput", self.updated_input.to_json());
        assert(json::member_models(members@) =~= Self::json(self.deep_view())->Object_0);
        json::of_members(members)
    }
}

/// What a hook answers before a tool call: the command that is run in its place.
#[derive(Clone, Debug, PartialEq, Eq)]
pub struct PreToolUseOutput {
    pub hook_specific_output: PreToolUseSpecificOutput,
}

/// What a `PreToolUseOutput` says.
pub struct PreToolUseOutputModel {
    pub hook_specific_output: PreToolUseSpecificOutputModel,
}

impl DeepView for PreToolUseOutput {
    type V = PreToolUseOutputModel;

    open spec fn deep_view(&self) -> PreToolUseOutputModel {
        PreToolUseOutputModel {
            hook_specific_output: self.hook_specific_output.deep_view(),
        }
    }
}

impl ToJson for PreToolUseOutput {
    open spec fn json(value: PreToolUseOutputModel) -> JsonModel {
        JsonModel::Object(
            seq![
                ("hookSpecificOutput"@, PreToolUseSpecificOutput::json(value.hook_specific_output)),
            ],
        )
    }

    fn to_json(&self) -> (r: Json) {
        let mut members: Vec<JsonMember> = Vec::new();
        assert(json::member_models(members@) =~= Seq::empty());
        json::put(&mut members, "hookSpecificOutput", self.hook_specific_output.to_json());
        assert(json::member_models(members@) =~= Self::json(self.deep_view())->Object_0);
        json::of_members(members)
    }
}

} // verus!
