//! From results to their projections, and from tool calls to the answers of the hooks.

pub mod laws;

use vstd::prelude::*;
use crate::delta;
use crate::hook::commands;
use crate::hook::commands::{
    artifact_root_for, build_executor_command, build_input_kind, is_git_diff,
    parse_simple_cargo_command, parse_simple_log_command, request_file_path, CargoExecutionKind,
    CargoExecutionRequest, LogExecutionRequest, Shell,
};
use crate::hook::{
    BuildProjection, BuildProjectionModel, CommandProjection, CommandProjectionModel,
    DiffProjection, DiffProjectionModel, HookOutput, HookOutputModel, LogProjection,
    LogProjectionModel, ModelDiagnostic, ModelDiagnosticModel, ModelDiffSummary,
    ModelDiffSummaryModel, ModelFileDelta, ModelFileDeltaModel, ModelHunk, ModelHunkModel,
    ModelLogCounts, ModelLogCountsModel, ModelProjection, ModelProjectionModel, ModelTests,
    ModelTestsModel, PreToolUseOutput, PreToolUseOutputModel, PreToolUseSpecificOutput,
    PreToolUseSpecificOutputModel, UpdatedBashInput, UpdatedBashInputModel,
};
use crate::json;
use crate::json::{Json, JsonModel, ToJson};
use crate::list;
use crate::log;
use crate::observe;
use crate::path;
use crate::text;

verus! {

broadcast use vstd::string::group_string_axioms;

#[derive(Clone, Debug, PartialEq, Eq)]
pub enum HookError {
    Io(String),
    Json(String),
    Observation(observe::NormalizeError),
    Delta(delta::DeltaError),
    Log(log::NormalizeError),
    InvalidInput(String),
}

/// What a `HookError` says.
pub enum HookErrorModel {
    Io(Seq<char>),
    Json(Seq<char>),
    Observation(observe::NormalizeErrorModel),
    Delta(delta::DeltaErrorModel),
    Log(log::NormalizeErrorModel),
    InvalidInput(Seq<char>),
}

impl DeepView for HookError {
    type V = HookErrorModel;

    open spec fn deep_view(&self) -> HookErrorModel {
        match self {
            HookError::Io(e) => HookErrorModel::Io(e@),
            HookError::Json(e) => HookErrorModel::Json(e@),
            HookError::Observation(e) => HookErrorModel::Observation(e.deep_view()),
            HookError::Delta(e) => HookErrorModel::Delta(e.deep_view()),
            HookError::Log(e) => HookErrorModel::Log(e.deep_view()),
            HookError::InvalidInput(e) => HookErrorModel::InvalidInput(e@),
        }
    }
}

impl HookErrorModel {
    pub open spec fn message(self) -> Seq<char> {
        match self {
            HookErrorModel::Io(e) => "I/O error: "@ + e,
            HookErrorModel::Json(e) => "JSON error: "@ + e,
            HookErrorModel::Observation(e) => "observation error: "@ + e.message(),
            HookErrorModel::Delta(e) => "delta error: "@ + e.message(),
            HookErrorModel::Log(e) => "log error: "@ + e.message(),
            HookErrorModel::InvalidInput(e) => "invalid hook input: "@ + e,
        }
    }
}

impl HookError {
    /// The error as a sentence for a person.
    pub fn message(&self) -> (r: String)
        ensures
            r@ == self.deep_view().message(),
    {
        match self {
            HookError::Io(e) => text::concat("I/O error: ", e.as_str()),
            HookError::Json(e) => text::concat("JSON error: ", e.as_str()),
            HookError::Observation(e) => text::concat("observation error: ", e.message().as_str()),
            HookError::Delta(e) => text::concat("delta error: ", e.message().as_str()),
            HookError::Log(e) => text::concat("log error: ", e.message().as_str()),
            HookError::InvalidInput(e) => text::concat("invalid hook input: ", e.as_str()),
        }
    }
}

/// The answer where nothing can be said of a result, or where it cannot be told what happened.
pub fn fallback_output() -> (r: HookOutput)
    ensures
        r.deep_view() == (HookOutputModel {
            should_continue: false,
            stop_reason:
                "{\"operation\":\"command\",\"result\":{\"status\":\"unknown\",\"completeness\":\"No structured semantic result is available for this operation.\"}}"@,
        }),
{
    HookOutput {
        should_continue: false,
        stop_reason: text::copy(
            "{\"operation\":\"command\",\"result\":{\"status\":\"unknown\",\"completeness\":\"No structured semantic result is available for this operation.\"}}",
        ),
    }
}

/// A place in a file as it is shown.
pub open spec fn place_text(file: Seq<char>, line: u64, column: u64) -> Seq<char> {
    file + ":"@ + text::decimal(line as nat) + ":"@ + text::decimal(column as nat)
}

fn show_place(file: &str, line: u64, column: u64) -> (r: String)
    ensures
        r@ == place_text(file@, line, column),
{
    let line = text::format_number(line);
    let column = text::format_number(column);
    let front = text::concat(file, ":");
    let front = text::concat(front.as_str(), text::to_text(line.as_slice()).as_str());
    let front = text::concat(front.as_str(), ":");
    text::concat(front.as_str(), text::to_text(column.as_slice()).as_str())
}

/// The number, or one where there is none.
pub open spec fn or_one(n: Option<u64>) -> u64 {
    match n {
        Some(n) => n,
        None => 1,
    }
}

fn number_or_one(n: Option<u64>) -> (r: u64)
    ensures
        r == or_one(n),
{
    match n {
        Some(n) => n,
        None => 1,
    }
}

/// A place of a report as it is shown, where its file is known.
pub open spec fn report_place(
    file: Option<Seq<char>>,
    line: Option<u64>,
    column: Option<u64>,
) -> Option<Seq<char>> {
    match file {
        Some(file) => Some(place_text(file, or_one(line), or_one(column))),
        None => None,
    }
}

fn show_report_place(file: &Option<String>, line: Option<u64>, column: Option<u64>) -> (r: Option<
    String,
>)
    ensures
        r.deep_view() == report_place(file.deep_view(), line, column),
{
    match file {
        Some(file) => Some(show_place(file.as_str(), number_or_one(line), number_or_one(column))),
        None => None,
    }
}

/// The places from `i` on whose files are known, as they are shown.
pub open spec fn report_places_from(locations: Seq<log::SourceLocationModel>, i: int) -> Seq<
    Seq<char>,
>
    decreases locations.len() - i,
{
    if i < 0 || i >= locations.len() {
        seq![]
    } else {
        (match report_place(locations[i].file, locations[i].line, locations[i].column) {
            Some(place) => seq![place],
            None => seq![],
        }) + report_places_from(locations, i + 1)
    }
}

fn show_report_places(locations: &Vec<log::SourceLocation>) -> (r: Vec<String>)
    ensures
        r.deep_view() == report_places_from(locations.deep_view(), 0),
{
    let ghost all = locations.deep_view();
    let mut out: Vec<String> = Vec::new();
    let mut i: usize = 0;
    while i < locations.len()
        invariant
            i <= locations@.len(),
            all == locations.deep_view(),
            report_places_from(all, 0) =~= out.deep_view() + report_places_from(all, i as int),
        decreases locations@.len() - i,
    {
        assert(all[i as int] == locations@[i as int].deep_view());
        let location = &locations[i];
        if let Some(place) = show_report_place(&location.file, location.line, location.column) {
            list::push(&mut out, place);
        }
        i += 1;
    }
    assert(out.deep_view() =~= report_places_from(all, 0));
    out
}

/// The name of a kind of report.
pub open spec fn log_kind_label(kind: log::InputKind) -> Seq<char> {
    match kind {
        log::InputKind::JunitXml => "junit_xml"@,
        log::InputKind::SarifJson => "sarif_2_1_0"@,
        log::InputKind::GenericText => "generic_text_log"@,
        log::InputKind::NextestText => "nextest_text"@,
    }
}

/// The name of a kind of report.
pub fn log_kind_name(kind: log::InputKind) -> (r: &'static str)
    ensures
        r@ == log_kind_label(kind),
{
    match kind {
        log::InputKind::JunitXml => "junit_xml",
        log::InputKind::SarifJson => "sarif_2_1_0",
        log::InputKind::GenericText => "generic_text_log",
        log::InputKind::NextestText => "nextest_text",
    }
}

/// The name of a category of findings.
pub open spec fn category_label(category: log::DiagnosticCategory) -> Seq<char> {
    match category {
        log::DiagnosticCategory::Failure => "failure"@,
        log::DiagnosticCategory::Error => "error"@,
        log::DiagnosticCategory::Panic => "panic"@,
        log::DiagnosticCategory::Sarif => "sarif"@,
        log::DiagnosticCategory::Log => "log"@,
    }
}

fn category_name(category: log::DiagnosticCategory) -> (r: &'static str)
    ensures
        r@ == category_label(category),
{
    match category {
        log::DiagnosticCategory::Failure => "failure",
        log::DiagnosticCategory::Error => "error",
        log::DiagnosticCategory::Panic => "panic",
        log::DiagnosticCategory::Sarif => "sarif",
        log::DiagnosticCategory::Log => "log",
    }
}

/// A finding of a report as it is shown.
pub open spec fn report_diagnostic(diagnostic: log::DiagnosticModel) -> ModelDiagnosticModel {
    ModelDiagnosticModel {
        kind: category_label(diagnostic.category),
        code: diagnostic.rule_id,
        suite: diagnostic.suite,
        test: diagnostic.test,
        message: diagnostic.message,
        location: report_place(diagnostic.file, diagnostic.line, diagnostic.column),
        related_locations: report_places_from(diagnostic.related_locations, 0),
    }
}

pub open spec fn report_diagnostics(diagnostics: Seq<log::DiagnosticModel>) -> Seq<
    ModelDiagnosticModel,
> {
    Seq::new(diagnostics.len(), |i: int| report_diagnostic(diagnostics[i]))
}

fn show_report_diagnostics(diagnostics: &Vec<log::Diagnostic>) -> (r: Vec<ModelDiagnostic>)
    ensures
        r.deep_view() == report_diagnostics(diagnostics.deep_view()),
{
    let ghost all = diagnostics.deep_view();
    let mut out: Vec<ModelDiagnostic> = Vec::new();
    let mut i: usize = 0;
    while i < diagnostics.len()
        invariant
            i <= diagnostics@.len(),
            all == diagnostics.deep_view(),
            out@.len() == i,
            forall|k: int|
                0 <= k < i ==> (#[trigger] out@[k]).deep_view() == report_diagnostic(all[k]),
        decreases diagnostics@.len() - i,
    {
        assert(all[i as int] == diagnostics@[i as int].deep_view());
        let diagnostic = &diagnostics[i];
        out.push(
            ModelDiagnostic {
                kind: text::copy(category_name(diagnostic.category)),
                code: text::copy_option(&diagnostic.rule_id),
                suite: text::copy_option(&diagnostic.suite),
                test: text::copy_option(&diagnostic.test),
                message: text::copy(diagnostic.message.as_str()),
                location: show_report_place(
                    &diagnostic.file,
                    diagnostic.line,
                    diagnostic.column,
                ),
                related_locations: show_report_places(&diagnostic.related_locations),
            },
        );
        i += 1;
    }
    assert(out.deep_view() =~= report_diagnostics(all));
    out
}

/// A report as it is shown.
pub open spec fn log_projection(pack: log::LogPackModel) -> LogProjectionModel {
    LogProjectionModel {
        format: log_kind_label(pack.kind),
        status: match pack.verdict {
            log::Verdict::Passed => "passed"@,
            log::Verdict::Failed => "failed"@,
            log::Verdict::Unknown => "unknown"@,
        },
        diagnostics: report_diagnostics(pack.diagnostics),
        counts: ModelLogCountsModel {
            total: pack.counts.total,
            passed: pack.counts.passed,
            failed: pack.counts.failed,
            skipped: pack.counts.skipped,
            errors: pack.counts.errors,
        },
        omitted: match pack.omitted {
            Some(omitted) => omitted.count,
            None => 0,
        },
        completeness: if pack.complete {
            "all supported semantic events retained"@
        } else {
            "bounded projection; omitted or contradictory input is reported"@
        },
    }
}

/// A report as it is shown.
pub fn project_log(pack: &log::LogPack) -> (r: LogProjection)
    ensures
        r.deep_view() == log_projection(pack.deep_view()),
{
    let status = match pack.verdict {
        log::Verdict::Passed => "passed",
        log::Verdict::Failed => "failed",
        log::Verdict::Unknown => "unknown",
    };
    let omitted: u64 = match &pack.omitted {
        Some(omitted) => omitted.count,
        None => 0,
    };
    let completeness = if pack.complete {
        "all supported semantic events retained"
    } else {
        "bounded projection; omitted or contradictory input is reported"
    };
    LogProjection {
        format: text::copy(log_kind_name(pack.kind)),
        status: text::copy(status),
        diagnostics: show_report_diagnostics(&pack.diagnostics),
        counts: ModelLogCounts {
            total: pack.counts.total,
            passed: pack.counts.passed,
            failed: pack.counts.failed,
            skipped: pack.counts.skipped,
            errors: pack.counts.errors,
        },
        omitted,
        completeness: text::copy(completeness),
    }
}

/// What is shown of a report that cannot be read.
pub open spec fn unreadable_log(kind: log::InputKind) -> LogProjectionModel {
    LogProjectionModel {
        format: log_kind_label(kind),
        status: "normalization_failed"@,
        diagnostics: seq![],
        counts: ModelLogCountsModel { total: 0, passed: 0, failed: 0, skipped: 0, errors: 0 },
        omitted: 0,
        completeness: "structured input was invalid; no semantic success is claimed"@,
    }
}

/// What is shown of a report, with whether its bytes could be kept: what is not kept is not
/// shown either.
pub open spec fn shown_log(
    kind: log::InputKind,
    raw: Seq<u8>,
    success: bool,
    artifact_root: Seq<char>,
    kept: bool,
) -> LogProjectionModel {
    match log::pack_of(kind, raw, success, artifact_root) {
        Ok(pack) => if kept {
            log_projection(pack)
        } else {
            unreadable_log(kind)
        },
        Err(_) => unreadable_log(kind),
    }
}

fn show_unreadable_log(kind: log::InputKind) -> (r: LogProjection)
    ensures
        r.deep_view() == unreadable_log(kind),
{
    let none: Vec<ModelDiagnostic> = Vec::new();
    assert(none.deep_view() =~= Seq::empty());
    LogProjection {
        format: text::copy(log_kind_name(kind)),
        status: text::copy("normalization_failed"),
        diagnostics: none,
        counts: ModelLogCounts { total: 0, passed: 0, failed: 0, skipped: 0, errors: 0 },
        omitted: 0,
        completeness: text::copy("structured input was invalid; no semantic success is claimed"),
    }
}

/// What is shown of a report, as it is written.
pub fn execute_log_request(
    kind: log::InputKind,
    raw: &[u8],
    success: bool,
    artifact_root: &str,
    kept: bool,
) -> (r: String)
    ensures
        r@ == json::written(
            ModelProjection::json(
                ModelProjectionModel::Log(shown_log(kind, raw@, success, artifact_root@, kept)),
            ),
        ),
{
    let projection = if !kept {
        show_unreadable_log(kind)
    } else {
        match log::normalize_bytes(kind, raw, success, artifact_root) {
            Ok(pack) => project_log(&pack),
            Err(_) => show_unreadable_log(kind),
        }
    };
    ModelProjection::Log(projection).to_json().to_text()
}

/// Checks the file of a report. `path` and `workspace` are without links.
pub fn check_report_file(path: &str, workspace: &str, is_file: bool) -> (r: Result<(), HookError>)
    ensures
        match r {
            Ok(_) => path::within(path@, workspace@) && is_file,
            Err(error) => !(path::within(path@, workspace@) && is_file) && error.deep_view()
                == HookErrorModel::InvalidInput("report path is outside the workspace"@),
        },
{
    if !path::is_within(path, workspace) || !is_file {
        return Err(HookError::InvalidInput(text::copy("report path is outside the workspace")));
    }
    Ok(())
}

/// What a process wrote: its output, and behind it its errors, where there are any.
pub open spec fn whole_output(stdout: Seq<u8>, stderr: Seq<u8>) -> Seq<u8> {
    if stderr.len() > 0 {
        stdout + vstd::utf8::encode_utf8("\n--- stderr ---\n"@) + stderr
    } else {
        stdout
    }
}

fn append_bytes(out: &mut Vec<u8>, more: &[u8])
    ensures
        final(out)@ == old(out)@ + more@,
{
    let ghost start = out@;
    let mut i: usize = 0;
    while i < more.len()
        invariant
            i <= more@.len(),
            start == old(out)@,
            out@ =~= start + more@.take(i as int),
        decreases more@.len() - i,
    {
        out.push(more[i]);
        i += 1;
    }
    assert(more@.take(more@.len() as int) =~= more@);
}

/// What a process wrote, output and errors.
pub fn complete_raw(stdout: &[u8], stderr: &[u8]) -> (r: Vec<u8>)
    ensures
        r@ == whole_output(stdout@, stderr@),
{
    let mut out: Vec<u8> = Vec::new();
    append_bytes(&mut out, stdout);
    assert(out@ =~= stdout@);
    if stderr.len() > 0 {
        append_bytes(&mut out, "\n--- stderr ---\n".as_bytes());
        append_bytes(&mut out, stderr);
    }
    out
}

/// The places of a compiler's message as they are shown.
pub open spec fn compiler_places(locations: Seq<observe::SourceLocationModel>) -> Seq<Seq<char>> {
    Seq::new(
        locations.len(),
        |i: int| place_text(locations[i].file, locations[i].line, locations[i].column),
    )
}

/// A message of a compiler or of a test as it is shown.
pub open spec fn compiler_diagnostic(diagnostic: observe::DiagnosticModel) -> ModelDiagnosticModel {
    ModelDiagnosticModel {
        kind: diagnostic.kind,
        code: diagnostic.code,
        suite: None,
        test: None,
        message: diagnostic.message,
        location: match diagnostic.primary_location {
            Some(place) => Some(place_text(place.file, place.line, place.column)),
            None => None,
        },
        related_locations: compiler_places(diagnostic.related_locations),
    }
}

pub open spec fn compiler_diagnostics(diagnostics: Seq<observe::DiagnosticModel>) -> Seq<
    ModelDiagnosticModel,
> {
    Seq::new(diagnostics.len(), |i: int| compiler_diagnostic(diagnostics[i]))
}

/// A build or a run of tests as it is shown.
pub open spec fn build_projection(pack: observe::ObservationPackModel) -> BuildProjectionModel {
    BuildProjectionModel {
        status: match pack.verdict {
            observe::Verdict::Passed => "passed"@,
            observe::Verdict::Failed => "failed"@,
            observe::Verdict::Unknown => "unknown"@,
        },
        diagnostics: compiler_diagnostics(pack.diagnostics),
        tests: match pack.tests {
            Some(tests) => Some(
                ModelTestsModel {
                    passed: tests.passed,
                    failed: tests.failed,
                    ignored: tests.ignored,
                },
            ),
            None => None,
        },
        completeness: pack.completeness,
    }
}

fn format_location(location: &observe::SourceLocation) -> (r: String)
    ensures
        r@ == place_text(location.file@, location.line, location.column),
{
    show_place(location.file.as_str(), location.line, location.column)
}

fn show_compiler_places(locations: &Vec<observe::SourceLocation>) -> (r: Vec<String>)
    ensures
        r.deep_view() == compiler_places(locations.deep_view()),
{
    let ghost all = locations.deep_view();
    let mut out: Vec<String> = Vec::new();
    let mut i: usize = 0;
    while i < locations.len()
        invariant
            i <= locations@.len(),
            all == locations.deep_view(),
            out@.len() == i,
            forall|k: int| 0 <= k < i ==> (#[trigger] out@[k])@ == compiler_places(all)[k],
        decreases locations@.len() - i,
    {
        assert(all[i as int] == locations@[i as int].deep_view());
        out.push(format_location(&locations[i]));
        i += 1;
    }
    assert(out.deep_view() =~= compiler_places(all));
    out
}

fn show_compiler_diagnostics(diagnostics: &Vec<observe::Diagnostic>) -> (r: Vec<ModelDiagnostic>)
    ensures
        r.deep_view() == compiler_diagnostics(diagnostics.deep_view()),
{
    let ghost all = diagnostics.deep_view();
    let mut out: Vec<ModelDiagnostic> = Vec::new();
    let mut i: usize = 0;
    while i < diagnostics.len()
        invariant
            i <= diagnostics@.len(),
            all == diagnostics.deep_view(),
            out@.len() == i,
            forall|k: int|
                0 <= k < i ==> (#[trigger] out@[k]).deep_view() == compiler_diagnostic(all[k]),
        decreases diagnostics@.len() - i,
    {
        assert(all[i as int] == diagnostics@[i as int].deep_view());
        let diagnostic = &diagnostics[i];
        let location = match &diagnostic.primary_location {
            Some(place) => Some(format_location(place)),
            None => None,
        };
        out.push(
            ModelDiagnostic {
                kind: text::copy(diagnostic.kind.as_str()),
                code: text::copy_option(&diagnostic.code),
                suite: None,
                test: None,
                message: text::copy(diagnostic.message.as_str()),
                location,
                related_locations: show_compiler_places(&diagnostic.related_locations),
            },
        );
        i += 1;
    }
    assert(out.deep_view() =~= compiler_diagnostics(all));
    out
}

/// A build or a run of tests as it is shown.
pub fn project_observation(pack: &observe::ObservationPack) -> (r: BuildProjection)
    ensures
        r.deep_view() == build_projection(pack.deep_view()),
{
    let status = match pack.verdict {
        observe::Verdict::Passed => "passed",
        observe::Verdict::Failed => "failed",
        observe::Verdict::Unknown => "unknown",
    };
    let tests = match &pack.tests {
        Some(tests) => Some(
            ModelTests { passed: tests.passed, failed: tests.failed, ignored: tests.ignored },
        ),
        None => None,
    };
    BuildProjection {
        status: text::copy(status),
        diagnostics: show_compiler_diagnostics(&pack.diagnostics),
        tests,
        completeness: text::copy(pack.completeness.as_str()),
    }
}

/// The name of a kind of change.
pub open spec fn change_label(kind: delta::ChangeKind) -> Seq<char> {
    match kind {
        delta::ChangeKind::Added => "added"@,
        delta::ChangeKind::Modified => "modified"@,
        delta::ChangeKind::Deleted => "deleted"@,
        delta::ChangeKind::Renamed => "renamed"@,
    }
}

fn change_name(kind: delta::ChangeKind) -> (r: &'static str)
    ensures
        r@ == change_label(kind),
{
    match kind {
        delta::ChangeKind::Added => "added",
        delta::ChangeKind::Modified => "modified",
        delta::ChangeKind::Deleted => "deleted",
        delta::ChangeKind::Renamed => "renamed",
    }
}

pub open spec fn shown_hunk(hunk: delta::Hunk) -> ModelHunkModel {
    ModelHunkModel {
        old_start: hunk.old_start,
        old_lines: hunk.old_lines,
        new_start: hunk.new_start,
        new_lines: hunk.new_lines,
    }
}

/// A changed file as it is shown.
pub open spec fn shown_file(file: delta::FileDeltaModel) -> ModelFileDeltaModel {
    ModelFileDeltaModel {
        old_path: file.old_path,
        new_path: file.new_path,
        change_kind: change_label(file.change_kind),
        binary: file.is_binary,
        hunks: Seq::new(file.hunks.len(), |i: int| shown_hunk(file.hunks[i])),
        additions: file.additions,
        deletions: file.deletions,
    }
}

/// A diff as it is shown.
pub open spec fn diff_projection(pack: delta::DeltaPackModel) -> DiffProjectionModel {
    DiffProjectionModel {
        status: match pack.verdict {
            delta::DeltaVerdict::Clean => "clean"@,
            delta::DeltaVerdict::Changed => "changed"@,
        },
        files: Seq::new(pack.files.len(), |i: int| shown_file(pack.files[i])),
        summary: ModelDiffSummaryModel {
            files_changed: pack.summary.files_changed,
            files_added: pack.summary.files_added,
            files_deleted: pack.summary.files_deleted,
            files_renamed: pack.summary.files_renamed,
            binary_files: pack.summary.binary_files,
            additions: pack.summary.additions,
            deletions: pack.summary.deletions,
        },
        completeness: pack.completeness,
    }
}

fn show_hunks(hunks: &Vec<delta::Hunk>) -> (r: Vec<ModelHunk>)
    ensures
        r.deep_view() == Seq::new(hunks@.len(), |i: int| shown_hunk(hunks@[i])),
{
    let mut out: Vec<ModelHunk> = Vec::new();
    let mut i: usize = 0;
    while i < hunks.len()
        invariant
            i <= hunks@.len(),
            out@.len() == i,
            forall|k: int| 0 <= k < i ==> (#[trigger] out@[k]).deep_view() == shown_hunk(hunks@[k]),
        decreases hunks@.len() - i,
    {
        let hunk = hunks[i];
        out.push(
            ModelHunk {
                old_start: hunk.old_start,
                old_lines: hunk.old_lines,
                new_start: hunk.new_start,
                new_lines: hunk.new_lines,
            },
        );
        i += 1;
    }
    assert(out.deep_view() =~= Seq::new(hunks@.len(), |i: int| shown_hunk(hunks@[i])));
    out
}

fn show_files(files: &Vec<delta::FileDelta>) -> (r: Vec<ModelFileDelta>)
    ensures
        r.deep_view() == Seq::new(
            files.deep_view().len(),
            |i: int| shown_file(files.deep_view()[i]),
        ),
{
    let ghost all = files.deep_view();
    let mut out: Vec<ModelFileDelta> = Vec::new();
    let mut i: usize = 0;
    while i < files.len()
        invariant
            i <= files@.len(),
            all == files.deep_view(),
            out@.len() == i,
            forall|k: int| 0 <= k < i ==> (#[trigger] out@[k]).deep_view() == shown_file(all[k]),
        decreases files@.len() - i,
    {
        assert(all[i as int] == files@[i as int].deep_view());
        let file = &files[i];
        out.push(
            ModelFileDelta {
                old_path: text::copy_option(&file.old_path),
                new_path: text::copy_option(&file.new_path),
                change_kind: text::copy(change_name(file.change_kind)),
                binary: file.is_binary,
                hunks: show_hunks(&file.hunks),
                additions: file.additions,
                deletions: file.deletions,
            },
        );
        i += 1;
    }
    assert(out.deep_view() =~= Seq::new(all.len(), |i: int| shown_file(all[i])));
    out
}

/// A diff as it is shown.
pub fn project_diff(pack: &delta::DeltaPack) -> (r: DiffProjection)
    ensures
        r.deep_view() == diff_projection(pack.deep_view()),
{
    let status = match pack.verdict {
        delta::DeltaVerdict::Clean => "clean",
        delta::DeltaVerdict::Changed => "changed",
    };
    DiffProjection {
        status: text::copy(status),
        files: show_files(&pack.files),
        summary: ModelDiffSummary {
            files_changed: pack.summary.files_changed,
            files_added: pack.summary.files_added,
            files_deleted: pack.summary.files_deleted,
            files_renamed: pack.summary.files_renamed,
            binary_files: pack.summary.binary_files,
            additions: pack.summary.additions,
            deletions: pack.summary.deletions,
        },
        completeness: text::copy(pack.completeness.as_str()),
    }
}

/// A command of which only the status is known.
pub open spec fn command_projection(status: Seq<char>) -> ModelProjectionModel {
    ModelProjectionModel::Command(
        CommandProjectionModel {
            status,
            completeness: "No structured semantic result is available for this operation."@,
        },
    )
}

/// A command of which only the status is known.
pub fn generic_projection(status: &str) -> (r: ModelProjection)
    ensures
        r.deep_view() == command_projection(status@),
{
    ModelProjection::Command(
        CommandProjection {
            status: text::copy(status),
            completeness: text::copy(
                "No structured semantic result is available for this operation.",
            ),
        },
    )
}

/// The projection with the status that the process gives it, where its output gave none.
pub open spec fn reconciled(projection: ModelProjectionModel, success: bool) -> ModelProjectionModel {
    let status = if success {
        "passed"@
    } else {
        "failed"@
    };
    match projection {
        ModelProjectionModel::Build(result) => if result.status == "unknown"@ {
            ModelProjectionModel::Build(BuildProjectionModel { status, ..result })
        } else {
            projection
        },
        ModelProjectionModel::Test(result) => if result.status == "unknown"@ {
            ModelProjectionModel::Test(BuildProjectionModel { status, ..result })
        } else {
            projection
        },
        _ => projection,
    }
}

/// Gives the projection the status of the process, where its output gave none.
pub fn reconcile_process_status(projection: &mut ModelProjection, success: bool)
    ensures
        final(projection).deep_view() == reconciled(old(projection).deep_view(), success),
{
    let status = if success {
        "passed"
    } else {
        "failed"
    };
    match projection {
        ModelProjection::Build(result) => {
            if text::same_text(result.status.as_str(), "unknown") {
                result.status = text::copy(status);
            }
        },
        ModelProjection::Test(result) => {
            if text::same_text(result.status.as_str(), "unknown") {
                result.status = text::copy(status);
            }
        },
        _ => {},
    }
}

/// The status of a process.
pub open spec fn process_status(success: bool) -> Seq<char> {
    if success {
        "completed"@
    } else {
        "failed"@
    }
}

/// What is shown of a run of Cargo, with whether the bytes it is made from could be kept: what
/// is not kept is not shown either.
pub open spec fn shown_cargo(
    kind: CargoExecutionKind,
    stdout: Seq<u8>,
    stderr: Seq<u8>,
    success: bool,
    kept: bool,
) -> ModelProjectionModel {
    let projection = if !kept {
        command_projection(process_status(success))
    } else {
        match kind {
            CargoExecutionKind::BuildJson => match observe::pack_of(
                observe::InputKind::CargoJson,
                stdout,
            ) {
                Ok(pack) => ModelProjectionModel::Build(build_projection(pack)),
                Err(_) => command_projection(process_status(success)),
            },
            CargoExecutionKind::TestText => match observe::pack_of(
                observe::InputKind::CargoTestText,
                whole_output(stdout, stderr),
            ) {
                Ok(pack) => ModelProjectionModel::Test(build_projection(pack)),
                Err(_) => command_projection(process_status(success)),
            },
        }
    };
    reconciled(projection, success)
}

fn status_from_success(success: bool) -> (r: &'static str)
    ensures
        r@ == process_status(success),
{
    if success {
        "completed"
    } else {
        "failed"
    }
}

/// What is shown of a run of Cargo, as it is written.
pub fn execute_cargo_request(
    kind: CargoExecutionKind,
    stdout: &[u8],
    stderr: &[u8],
    success: bool,
    kept: bool,
) -> (r: String)
    ensures
        r@ == json::written(
            ModelProjection::json(shown_cargo(kind, stdout@, stderr@, success, kept)),
        ),
{
    if !kept {
        return generic_projection(status_from_success(success)).to_json().to_text();
    }
    let mut projection = match kind {
        CargoExecutionKind::BuildJson => match observe::normalize_bytes(
            observe::InputKind::CargoJson,
            stdout,
        ) {
            Ok(pack) => ModelProjection::Build(project_observation(&pack)),
            Err(_) => generic_projection(status_from_success(success)),
        },
        CargoExecutionKind::TestText => {
            let raw = complete_raw(stdout, stderr);
            match observe::normalize_bytes(observe::InputKind::CargoTestText, raw.as_slice()) {
                Ok(pack) => ModelProjection::Test(project_observation(&pack)),
                Err(_) => generic_projection(status_from_success(success)),
            }
        },
    };
    reconcile_process_status(&mut projection, success);
    projection.to_json().to_text()
}

/// The first place from `i` on at which bytes stand.
pub open spec fn bytes_found_from(raw: Seq<u8>, marker: Seq<u8>, i: int) -> Option<int>
    decreases raw.len() + 1 - i,
{
    if i < 0 || i + marker.len() > raw.len() {
        None
    } else if raw.subrange(i, i + marker.len()) == marker {
        Some(i)
    } else {
        bytes_found_from(raw, marker, i + 1)
    }
}

/// The bytes behind the first place at which a marker stands.
pub open spec fn behind_marker(raw: Seq<u8>, marker: Seq<u8>) -> Option<Seq<u8>> {
    match bytes_found_from(raw, marker, 0) {
        Some(place) => Some(raw.subrange(place + marker.len(), raw.len() as int)),
        None => None,
    }
}

/// What a command wrote, without the receipt that may stand before it: where the bytes begin
/// with the time it took, those behind the mark of the output.
pub open spec fn unwrapped(raw: Seq<u8>) -> Seq<u8> {
    let receipt = vstd::utf8::encode_utf8("Wall time:"@);
    if raw.len() < receipt.len() || raw.subrange(0, receipt.len() as int) != receipt {
        raw
    } else {
        match behind_marker(raw, vstd::utf8::encode_utf8("\nOutput:\n"@)) {
            Some(rest) => rest,
            None => match behind_marker(raw, vstd::utf8::encode_utf8("\r\nOutput:\r\n"@)) {
                Some(rest) => rest,
                None => raw,
            },
        }
    }
}

fn bytes_stand_at(raw: &[u8], marker: &[u8], place: usize) -> (r: bool)
    requires
        place + marker@.len() <= raw@.len(),
    ensures
        r == (raw@.subrange(place as int, place + marker@.len()) == marker@),
{
    let count: usize = raw.len();
    let mut i: usize = 0;
    while i < marker.len()
        invariant
            i <= marker@.len(),
            count == raw@.len(),
            place + marker@.len() <= count,
            forall|k: int| 0 <= k < i ==> raw@[place + k] == marker@[k],
        decreases marker@.len() - i,
    {
        if raw[place + i] != marker[i] {
            assert(raw@.subrange(place as int, place + marker@.len())[i as int] != marker@[i as int]);
            return false;
        }
        i += 1;
    }
    assert(raw@.subrange(place as int, place + marker@.len()) =~= marker@);
    true
}

fn find_bytes(raw: &[u8], marker: &[u8]) -> (r: Option<usize>)
    requires
        marker@.len() > 0,
    ensures
        match (r, bytes_found_from(raw@, marker@, 0)) {
            (Some(place), Some(p)) => place == p && p + marker@.len() <= raw@.len(),
            (None, None) => true,
            _ => false,
        },
{
    let count: usize = raw.len();
    let size: usize = marker.len();
    let mut i: usize = 0;
    while i < count && count - i >= size
        invariant
            i <= count,
            count == raw@.len(),
            size == marker@.len(),
            size > 0,
            bytes_found_from(raw@, marker@, 0) == bytes_found_from(raw@, marker@, i as int),
        decreases count - i,
    {
        if bytes_stand_at(raw, marker, i) {
            return Some(i);
        }
        i += 1;
    }
    None
}

/// What a command wrote, without the receipt that may stand before it.
pub fn strip_codex_output_wrapper(raw: &[u8]) -> (r: &[u8])
    ensures
        r@ == unwrapped(raw@),
{
    let receipt = "Wall time:".as_bytes();
    let unix = "\nOutput:\n".as_bytes();
    let windows = "\r\nOutput:\r\n".as_bytes();
    proof {
        reveal_strlit("\nOutput:\n");
        reveal_strlit("\r\nOutput:\r\n");
        text::texts_have_bytes("\nOutput:\n"@);
        text::texts_have_bytes("\r\nOutput:\r\n"@);
    }
    let count: usize = raw.len();
    if count < receipt.len() || !bytes_stand_at(raw, receipt, 0) {
        return raw;
    }
    if let Some(place) = find_bytes(raw, unix) {
        return vstd::slice::slice_subrange(raw, place + unix.len(), count);
    }
    if let Some(place) = find_bytes(raw, windows) {
        return vstd::slice::slice_subrange(raw, place + windows.len(), count);
    }
    raw
}

/// The response of a tool is a projection already.
pub open spec fn is_projection(response: JsonModel) -> bool {
    response.member("operation"@) is Some && response.member("result"@) is Some
}

/// The bytes that a tool gave: its text, the text of its output, or all of its response.
pub open spec fn given_bytes(response: JsonModel) -> Seq<u8> {
    let shown = match response.text() {
        Some(shown) => shown,
        None => match response.member_text("output"@) {
            Some(shown) => shown,
            None => match response.member_text("stdout"@) {
                Some(shown) => shown,
                None => match response.member_text("text"@) {
                    Some(shown) => shown,
                    None => json::written(response),
                },
            },
        },
    };
    vstd::utf8::encode_utf8(shown)
}

fn to_bytes(shown: &str) -> (r: Vec<u8>)
    ensures
        r@ == vstd::utf8::encode_utf8(shown@),
{
    vstd::slice::slice_to_vec(shown.as_bytes())
}

/// The bytes that a tool gave.
pub fn response_bytes(response: &Json) -> (r: Vec<u8>)
    ensures
        r@ == given_bytes(response.model()),
{
    if let Some(shown) = response.as_str() {
        return to_bytes(shown);
    }
    if let Some(shown) = response.get_str("output") {
        return to_bytes(shown);
    }
    if let Some(shown) = response.get_str("stdout") {
        return to_bytes(shown);
    }
    if let Some(shown) = response.get_str("text") {
        return to_bytes(shown);
    }
    to_bytes(response.to_text().as_str())
}

/// The status that a response gives a command.
pub open spec fn response_status(response: JsonModel) -> Seq<char> {
    let code = match response.member("exit_code"@) {
        Some(code) => code.signed(),
        None => match response.member("exitCode"@) {
            Some(code) => code.signed(),
            None => None,
        },
    };
    match code {
        Some(code) => if code == 0 {
            "completed"@
        } else {
            "failed"@
        },
        None => "unknown"@,
    }
}

/// The status that a response gives a command.
pub fn command_status(response: &Json) -> (r: &'static str)
    ensures
        r@ == response_status(response.model()),
{
    let code = match response.get("exit_code") {
        Some(code) => code.as_i64(),
        None => match response.get("exitCode") {
            Some(code) => code.as_i64(),
            None => None,
        },
    };
    match code {
        Some(code) => if code == 0 {
            "completed"
        } else {
            "failed"
        },
        None => "unknown",
    }
}

/// What is known behind a tool call.
#[derive(Debug, PartialEq, Eq)]
pub struct PostToolUseInput {
    pub hook_event_name: String,
    pub cwd: String,
    pub tool_name: String,
    pub tool_input: Json,
    pub tool_response: Json,
}

/// What is known before a tool call.
#[derive(Debug, PartialEq, Eq)]
pub struct PreToolUseInput {
    pub hook_event_name: String,
    pub cwd: String,
    pub tool_name: String,
    pub tool_input: Json,
}

/// The answer behind a tool call, and which bytes are to be kept: all that the tool gave, or
/// those without the receipt.
#[derive(Debug, PartialEq, Eq)]
pub struct PostToolUse {
    pub output: HookOutput,
    pub keep_raw: bool,
    pub keep_semantic: bool,
}

/// What a `PostToolUse` says.
pub struct PostToolUseModel {
    pub output: HookOutputModel,
    pub keep_raw: bool,
    pub keep_semantic: bool,
}

impl DeepView for PostToolUse {
    type V = PostToolUseModel;

    open spec fn deep_view(&self) -> PostToolUseModel {
        PostToolUseModel {
            output: self.output.deep_view(),
            keep_raw: self.keep_raw,
            keep_semantic: self.keep_semantic,
        }
    }
}

/// The answer that shows a value.
pub open spec fn answer_with(
    value: JsonModel,
    keep_raw: bool,
    keep_semantic: bool,
) -> PostToolUseModel {
    PostToolUseModel {
        output: HookOutputModel { should_continue: false, stop_reason: json::written(value) },
        keep_raw,
        keep_semantic,
    }
}

/// The projection of what a command gave, where it is one that is recognised, and whether it
/// could be made.
pub open spec fn recognised(command: Seq<char>, semantic: Seq<u8>) -> Option<
    Option<ModelProjectionModel>,
> {
    if commands::asks_for_diff(command) {
        Some(
            match delta::delta_of(semantic) {
                Ok(pack) => Some(ModelProjectionModel::Diff(diff_projection(pack))),
                Err(_) => None,
            },
        )
    } else {
        match commands::build_kind(command, semantic) {
            Some(kind) => Some(
                match observe::pack_of(kind, semantic) {
                    Ok(pack) => Some(
                        match kind {
                            observe::InputKind::CargoJson => ModelProjectionModel::Build(
                                build_projection(pack),
                            ),
                            observe::InputKind::CargoTestText => ModelProjectionModel::Test(
                                build_projection(pack),
                            ),
                        },
                    ),
                    Err(_) => None,
                },
            ),
            None => None,
        }
    }
}

/// The answer behind a tool call. There is none behind other events.
pub open spec fn post_answer(
    event: Seq<char>,
    tool_name: Seq<char>,
    tool_input: JsonModel,
    response: JsonModel,
) -> Result<Option<PostToolUseModel>, HookErrorModel> {
    if event != "PostToolUse"@ {
        Ok(None)
    } else if is_projection(response) {
        Ok(Some(answer_with(response, false, false)))
    } else if tool_name != "Bash"@ {
        Ok(
            Some(
                answer_with(ModelProjection::json(command_projection("unknown"@)), true, false),
            ),
        )
    } else {
        match tool_input.member_text("command"@) {
            None => Err(HookErrorModel::InvalidInput("Bash command is missing"@)),
            Some(command) => Ok(
                Some(
                    match recognised(command, unwrapped(given_bytes(response))) {
                        Some(Some(projection)) => answer_with(
                            ModelProjection::json(projection),
                            false,
                            true,
                        ),
                        Some(None) => answer_with(
                            ModelProjection::json(command_projection("normalization_failed"@)),
                            true,
                            true,
                        ),
                        None => answer_with(
                            ModelProjection::json(command_projection(response_status(response))),
                            true,
                            false,
                        ),
                    },
                ),
            ),
        }
    }
}

fn answer(value: &Json, keep_raw: bool, keep_semantic: bool) -> (r: PostToolUse)
    ensures
        r.deep_view() == answer_with(value.model(), keep_raw, keep_semantic),
{
    PostToolUse {
        output: HookOutput { should_continue: false, stop_reason: value.to_text() },
        keep_raw,
        keep_semantic,
    }
}

fn recognise(command: &str, semantic: &[u8]) -> (r: Option<Option<ModelProjection>>)
    ensures
        match (r, recognised(command@, semantic@)) {
            (Some(projection), Some(p)) => projection.deep_view() == p,
            (None, None) => true,
            _ => false,
        },
{
    if is_git_diff(command) {
        return Some(
            match delta::normalize_bytes(semantic) {
                Ok(pack) => Some(ModelProjection::Diff(project_diff(&pack))),
                Err(_) => None,
            },
        );
    }
    match build_input_kind(command, semantic) {
        Some(kind) => Some(
            match observe::normalize_bytes(kind, semantic) {
                Ok(pack) => {
                    let projection = project_observation(&pack);
                    Some(
                        match kind {
                            observe::InputKind::CargoJson => ModelProjection::Build(projection),
                            observe::InputKind::CargoTestText => ModelProjection::Test(projection),
                        },
                    )
                },
                Err(_) => None,
            },
        ),
        None => None,
    }
}

/// The answer behind a tool call.
pub fn project_post_tool_use(input: &PostToolUseInput) -> (r: Result<
    Option<PostToolUse>,
    HookError,
>)
    ensures
        match (
            r,
            post_answer(
                input.hook_event_name@,
                input.tool_name@,
                input.tool_input.model(),
                input.tool_response.model(),
            ),
        ) {
            (Ok(answer), Ok(a)) => answer.deep_view() == a,
            (Err(error), Err(e)) => error.deep_view() == e,
            _ => false,
        },
{
    if !text::same_text(input.hook_event_name.as_str(), "PostToolUse") {
        return Ok(None);
    }
    let response = &input.tool_response;
    if response.get("operation").is_some() && response.get("result").is_some() {
        return Ok(Some(answer(response, false, false)));
    }
    let raw = response_bytes(response);
    if !text::same_text(input.tool_name.as_str(), "Bash") {
        return Ok(Some(answer(&generic_projection("unknown").to_json(), true, false)));
    }
    let command = match input.tool_input.get_str("command") {
        Some(command) => command,
        None => {
            return Err(HookError::InvalidInput(text::copy("Bash command is missing")));
        },
    };
    let semantic = strip_codex_output_wrapper(raw.as_slice());
    match recognise(command, semantic) {
        Some(Some(projection)) => Ok(Some(answer(&projection.to_json(), false, true))),
        Some(None) => Ok(
            Some(answer(&generic_projection("normalization_failed").to_json(), true, true)),
        ),
        None => Ok(
            Some(answer(&generic_projection(command_status(response)).to_json(), true, false)),
        ),
    }
}

/// The answer behind a tool call, once it is known whether the bytes without the receipt could
/// be kept: what is not kept is not shown either.
pub open spec fn settled(answer: PostToolUseModel, kept: bool) -> PostToolUseModel {
    if answer.keep_semantic && !kept {
        answer_with(
            ModelProjection::json(command_projection("normalization_failed"@)),
            true,
            true,
        )
    } else {
        answer
    }
}

/// The answer behind a tool call, once it is known whether the bytes without the receipt could
/// be kept.
pub fn settle(output: PostToolUse, kept: bool) -> (r: PostToolUse)
    ensures
        r.deep_view() == settled(output.deep_view(), kept),
{
    if output.keep_semantic && !kept {
        answer(&generic_projection("normalization_failed").to_json(), true, true)
    } else {
        output
    }
}

/// The answer before a tool call, and the request that is to be written for it.
#[derive(Debug, PartialEq, Eq)]
pub struct PreToolUse {
    pub output: PreToolUseOutput,
    pub request_path: String,
    pub request: String,
}

/// What a `PreToolUse` says.
pub struct PreToolUseModel {
    pub output: PreToolUseOutputModel,
    pub request_path: Seq<char>,
    pub request: Seq<char>,
}

impl DeepView for PreToolUse {
    type V = PreToolUseModel;

    open spec fn deep_view(&self) -> PreToolUseModel {
        PreToolUseModel {
            output: self.output.deep_view(),
            request_path: self.request_path@,
            request: self.request@,
        }
    }
}

/// The answer that runs another command.
pub open spec fn run_instead(command: Seq<char>) -> PreToolUseOutputModel {
    PreToolUseOutputModel {
        hook_specific_output: PreToolUseSpecificOutputModel {
            hook_event_name: "PreToolUse"@,
            permission_decision: "allow"@,
            updated_input: UpdatedBashInputModel { command },
        },
    }
}

/// The request that a command is run as, and by what.
pub open spec fn native_request(command: Seq<char>, cwd: Seq<char>) -> Option<
    (Seq<char>, JsonModel),
> {
    match commands::cargo_request(command, cwd) {
        Some(request) => Some(("execute-cargo"@, CargoExecutionRequest::json(request))),
        None => match commands::log_request(command, cwd) {
            Some(request) => Some(("execute-log"@, LogExecutionRequest::json(request))),
            None => None,
        },
    }
}

/// The answer before a tool call, at a time, where the clock could be read. There is none for
/// commands that are not recognised.
pub open spec fn pre_answer(
    event: Seq<char>,
    cwd: Seq<char>,
    tool_name: Seq<char>,
    tool_input: JsonModel,
    executable: Seq<char>,
    shell: Shell,
    timestamp: Option<u128>,
) -> Result<Option<PreToolUseModel>, HookErrorModel> {
    if event != "PreToolUse"@ || tool_name != "Bash"@ {
        Ok(None)
    } else {
        match tool_input.member_text("command"@) {
            None => Err(HookErrorModel::InvalidInput("Bash command is missing"@)),
            Some(command) => match (native_request(command, cwd), timestamp) {
                (None, _) => Ok(None),
                (Some(_), None) => Err(
                    HookErrorModel::InvalidInput("system clock is before Unix epoch"@),
                ),
                (Some((subcommand, request)), Some(timestamp)) => {
                    let payload = json::written(request);
                    let path = commands::request_file(cwd, payload, timestamp);
                    Ok(
                        Some(
                            PreToolUseModel {
                                output: run_instead(
                                    commands::executor_command(
                                        shell,
                                        executable,
                                        subcommand,
                                        path,
                                    ),
                                ),
                                request_path: path,
                                request: payload,
                            },
                        ),
                    )
                },
            },
        }
    }
}

/// The answer before a tool call: a simple command is run natively, any other as it is.
pub fn prepare_pre_tool_use(
    input: &PreToolUseInput,
    executable: &str,
    shell: Shell,
    timestamp: Option<u128>,
) -> (r: Result<Option<PreToolUse>, HookError>)
    ensures
        match (
            r,
            pre_answer(
                input.hook_event_name@,
                input.cwd@,
                input.tool_name@,
                input.tool_input.model(),
                executable@,
                shell,
                timestamp,
            ),
        ) {
            (Ok(answer), Ok(a)) => answer.deep_view() == a,
            (Err(error), Err(e)) => error.deep_view() == e,
            _ => false,
        },
{
    if !text::same_text(input.hook_event_name.as_str(), "PreToolUse") || !text::same_text(
        input.tool_name.as_str(),
        "Bash",
    ) {
        return Ok(None);
    }
    let command = match input.tool_input.get_str("command") {
        Some(command) => command,
        None => {
            return Err(HookError::InvalidInput(text::copy("Bash command is missing")));
        },
    };
    let cwd = input.cwd.as_str();
    let (subcommand, request) = match parse_simple_cargo_command(command, cwd) {
        Some(request) => ("execute-cargo", request.to_json()),
        None => match parse_simple_log_command(command, cwd) {
            Some(request) => ("execute-log", request.to_json()),
            None => {
                return Ok(None);
            },
        },
    };
    let timestamp = match timestamp {
        Some(timestamp) => timestamp,
        None => {
            return Err(
                HookError::InvalidInput(text::copy("system clock is before Unix epoch")),
            );
        },
    };
    let payload = request.to_text();
    let request_path = request_file_path(cwd, payload.as_str(), timestamp);
    let rewritten = build_executor_command(shell, executable, subcommand, request_path.as_str());
    Ok(
        Some(
            PreToolUse {
                output: PreToolUseOutput {
                    hook_specific_output: PreToolUseSpecificOutput {
                        hook_event_name: text::copy("PreToolUse"),
                        permission_decision: text::copy("allow"),
                        updated_input: UpdatedBashInput { command: rewritten },
                    },
                },
                request_path,
                request: payload,
            },
        ),
    )
}

/// A call is run in another way only where it is a command for the shell, before it is run, and
/// the command is one of those that are recognised; it then stands on one line, and its words
/// mean nothing but themselves to a shell. Every other call is left alone.
pub proof fn other_calls_are_left_alone(
    event: Seq<char>,
    cwd: Seq<char>,
    tool_name: Seq<char>,
    tool_input: JsonModel,
    executable: Seq<char>,
    shell: Shell,
    timestamp: Option<u128>,
)
    ensures
        pre_answer(event, cwd, tool_name, tool_input, executable, shell, timestamp) matches Ok(
            Some(_),
        ) ==> {
            &&& event == "PreToolUse"@
            &&& tool_name == "Bash"@
            &&& tool_input.member_text("command"@) is Some
            &&& native_request(tool_input.member_text("command"@)->0, cwd) is Some
            &&& commands::on_one_line(tool_input.member_text("command"@)->0)
            &&& forall|k: int|
                0 <= k < text::words_of(tool_input.member_text("command"@)->0).len()
                    ==> commands::safe_word(
                    #[trigger] text::words_of(tool_input.member_text("command"@)->0)[k],
                )
        },
{
    if let Some(command) = tool_input.member_text("command"@) {
        if native_request(command, cwd) is Some {
            assert forall|k: int| 0 <= k < text::words_of(command).len() implies commands::safe_word(
                #[trigger] text::words_of(command)[k],
            ) by {
                commands::only_simple_commands_are_rewritten(command, cwd, k);
            }
        }
    }
}

/// A report that cannot be read or kept, or that came from a process that failed, is never
/// shown as one that passed.
pub proof fn unreadable_reports_do_not_pass(
    kind: log::InputKind,
    raw: Seq<u8>,
    success: bool,
    artifact_root: Seq<char>,
    kept: bool,
)
    ensures
        log::pack_of(kind, raw, success, artifact_root) is Err || !kept || !success ==> shown_log(
            kind,
            raw,
            success,
            artifact_root,
            kept,
        ).status != "passed"@,
{
    reveal_strlit("normalization_failed");
    reveal_strlit("passed");
    reveal_strlit("failed");
    assert("normalization_failed"@.len() != "passed"@.len());
    assert("failed"@[0] != "passed"@[0]);
}

/// What is shown of a command that is not recognised does not depend on what it wrote: only
/// on the status that the tool gives it.
pub proof fn other_output_is_not_shown(
    tool_input: JsonModel,
    command: Seq<char>,
    response: JsonModel,
    other: JsonModel,
)
    requires
        tool_input.member_text("command"@) == Some(command),
        recognised(command, unwrapped(given_bytes(response))) is None,
        recognised(command, unwrapped(given_bytes(other))) is None,
        !is_projection(response),
        !is_projection(other),
        response_status(response) == response_status(other),
    ensures
        post_answer("PostToolUse"@, "Bash"@, tool_input, response) == post_answer(
            "PostToolUse"@,
            "Bash"@,
            tool_input,
            other,
        ),
{
}

/// What other tools than the shell give is never shown.
pub proof fn other_tools_are_not_shown(
    tool_name: Seq<char>,
    tool_input: JsonModel,
    response: JsonModel,
    other: JsonModel,
)
    requires
        tool_name != "Bash"@,
        !is_projection(response),
        !is_projection(other),
    ensures
        post_answer("PostToolUse"@, tool_name, tool_input, response) == post_answer(
            "PostToolUse"@,
            tool_name,
            tool_input,
            other,
        ),
{
}

/// A projection that stands as the response of a tool is shown as it is, and answering once
/// more would not change it.
pub proof fn projections_are_shown_as_they_are(
    tool_name: Seq<char>,
    tool_input: JsonModel,
    response: JsonModel,
)
    requires
        is_projection(response),
    ensures
        post_answer("PostToolUse"@, tool_name, tool_input, response) == Ok::<
            Option<PostToolUseModel>,
            HookErrorModel,
        >(Some(answer_with(response, false, false))),
{
}

/// A status that the output gave stays; only one that it did not give is taken from the
/// process, and that is then the process's own.
pub proof fn known_status_stays(projection: ModelProjectionModel, success: bool)
    ensures
        reconciled(reconciled(projection, success), !success) == reconciled(projection, success),
        projection matches ModelProjectionModel::Build(result) ==> result.status != "unknown"@
            ==> reconciled(projection, success) == projection,
        projection matches ModelProjectionModel::Test(result) ==> result.status != "unknown"@
            ==> reconciled(projection, success) == projection,
{
    reveal_strlit("unknown");
    reveal_strlit("passed");
    reveal_strlit("failed");
    assert("passed"@.len() != "unknown"@.len());
    assert("failed"@.len() != "unknown"@.len());
}

} // verus!
