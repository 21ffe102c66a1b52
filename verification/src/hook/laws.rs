//! What the written form of a projection promises of the values in it.

use vstd::prelude::*;
use crate::hook::{
    BuildProjection, BuildProjectionModel, CommandProjection, CommandProjectionModel,
    DiffProjection, DiffProjectionModel, HookOutput, HookOutputModel, LogProjection,
    LogProjectionModel, ModelDiagnostic, ModelDiffSummary, ModelDiffSummaryModel, ModelFileDelta,
    ModelHunk, ModelHunkModel, ModelLogCounts, ModelLogCountsModel, ModelProjection,
    ModelProjectionModel, ModelTests, PreToolUseOutput, PreToolUseOutputModel,
};
use crate::json::{self, member_from, JsonModel, ToJson};

verus! {

broadcast use vstd::string::group_string_axioms;

/// A value of JSON is a number that stands for a count.
pub open spec fn counts(value: Option<JsonModel>, n: nat) -> bool {
    value == Some(json::count_model(n))
}

/// A projection names its operation, and its result is the projection itself.
pub proof fn projections_name_their_operation(value: ModelProjectionModel)
    ensures
        ({
            let shown = ModelProjection::json(value);
            let named = shown.member("operation"@);
            let result = shown.member("result"@);
            match value {
                ModelProjectionModel::Build(inner) => named == Some(JsonModel::Text("build"@))
                    && result == Some(BuildProjection::json(inner)),
                ModelProjectionModel::Test(inner) => named == Some(JsonModel::Text("test"@))
                    && result == Some(BuildProjection::json(inner)),
                ModelProjectionModel::Diff(inner) => named == Some(JsonModel::Text("diff"@))
                    && result == Some(DiffProjection::json(inner)),
                ModelProjectionModel::Log(inner) => named == Some(JsonModel::Text("log"@))
                    && result == Some(LogProjection::json(inner)),
                ModelProjectionModel::Command(inner) => named == Some(JsonModel::Text("command"@))
                    && result == Some(CommandProjection::json(inner)),
            }
        }),
{
    reveal_strlit("operation");
    reveal_strlit("result");
    reveal_with_fuel(member_from, 3);
    assert("operation"@.len() == 9 && "result"@.len() == 6);
}

/// The projection of a build or a test run gives its status, its diagnostics and, where there
/// are some, its counts.
pub proof fn builds_are_written(value: BuildProjectionModel)
    ensures
        ({
            let shown = BuildProjection::json(value);
            &&& shown.member("status"@) == Some(JsonModel::Text(value.status))
            &&& shown.member("diagnostics"@) == Some(
                json::item_array::<ModelDiagnostic>(value.diagnostics),
            )
            &&& shown.member("completeness"@) == Some(JsonModel::Text(value.completeness))
            &&& value.tests is None ==> shown.member("tests"@) is None
            &&& value.tests matches Some(tests) ==> shown.member("tests"@) == Some(
                ModelTests::json(tests),
            )
        }),
{
    reveal_strlit("status");
    reveal_strlit("diagnostics");
    reveal_strlit("completeness");
    reveal_strlit("tests");
    reveal_with_fuel(member_from, 5);
    assert("status"@.len() == 6 && "diagnostics"@.len() == 11 && "completeness"@.len() == 12
        && "tests"@.len() == 5);
    let members = BuildProjection::json(value)->Object_0;
    assert(members[0].0 == "status"@);
    assert(members[1].0 == "diagnostics"@);
    if value.tests is Some {
        assert(members.len() == 4);
        assert(members[2].0 == "tests"@);
        assert(members[3].0 == "completeness"@);
    } else {
        assert(members.len() == 3);
        assert(members[2].0 == "completeness"@);
    }
}

/// The projection of a diff gives its status, its files and its summary, and the summary gives
/// every count under its own name.
pub proof fn diffs_are_written(value: DiffProjectionModel, summary: ModelDiffSummaryModel)
    ensures
        ({
            let shown = DiffProjection::json(value);
            &&& shown.member("status"@) == Some(JsonModel::Text(value.status))
            &&& shown.member("files"@) == Some(json::item_array::<ModelFileDelta>(value.files))
            &&& shown.member("summary"@) == Some(ModelDiffSummary::json(value.summary))
            &&& shown.member("completeness"@) == Some(JsonModel::Text(value.completeness))
        }),
        ({
            let shown = ModelDiffSummary::json(summary);
            &&& counts(shown.member("files_changed"@), summary.files_changed)
            &&& counts(shown.member("files_added"@), summary.files_added)
            &&& counts(shown.member("files_deleted"@), summary.files_deleted)
            &&& counts(shown.member("files_renamed"@), summary.files_renamed)
            &&& counts(shown.member("binary_files"@), summary.binary_files)
            &&& counts(shown.member("additions"@), summary.additions)
            &&& counts(shown.member("deletions"@), summary.deletions)
        }),
{
    reveal_strlit("status");
    reveal_strlit("files");
    reveal_strlit("summary");
    reveal_strlit("completeness");
    reveal_strlit("files_changed");
    reveal_strlit("files_added");
    reveal_strlit("files_deleted");
    reveal_strlit("files_renamed");
    reveal_strlit("binary_files");
    reveal_strlit("additions");
    reveal_strlit("deletions");
    reveal_with_fuel(member_from, 8);
    assert("status"@.len() == 6 && "files"@.len() == 5 && "summary"@.len() == 7
        && "completeness"@.len() == 12);
    assert("files_changed"@.len() == 13 && "files_added"@.len() == 11 && "files_deleted"@.len()
        == 13 && "files_renamed"@.len() == 13 && "binary_files"@.len() == 12 && "additions"@.len()
        == 9 && "deletions"@.len() == 9);
    assert("files_changed"@[6] == 'c' && "files_deleted"@[6] == 'd' && "files_renamed"@[6] == 'r');
    assert("additions"@[0] == 'a' && "deletions"@[0] == 'd');
}

/// The projection of a report gives its format, its status, its diagnostics, its counts and how
/// much is left out, and the counts give every number under its own name.
pub proof fn reports_are_written(value: LogProjectionModel, tests: ModelLogCountsModel)
    ensures
        ({
            let shown = LogProjection::json(value);
            &&& shown.member("format"@) == Some(JsonModel::Text(value.format))
            &&& shown.member("status"@) == Some(JsonModel::Text(value.status))
            &&& shown.member("diagnostics"@) == Some(
                json::item_array::<ModelDiagnostic>(value.diagnostics),
            )
            &&& shown.member("counts"@) == Some(ModelLogCounts::json(value.counts))
            &&& counts(shown.member("omitted"@), value.omitted)
            &&& shown.member("completeness"@) == Some(JsonModel::Text(value.completeness))
        }),
        ({
            let shown = ModelLogCounts::json(tests);
            &&& counts(shown.member("total"@), tests.total)
            &&& counts(shown.member("passed"@), tests.passed)
            &&& counts(shown.member("failed"@), tests.failed)
            &&& counts(shown.member("skipped"@), tests.skipped)
            &&& counts(shown.member("errors"@), tests.errors)
        }),
{
    reveal_strlit("format");
    reveal_strlit("status");
    reveal_strlit("diagnostics");
    reveal_strlit("counts");
    reveal_strlit("omitted");
    reveal_strlit("completeness");
    reveal_strlit("total");
    reveal_strlit("passed");
    reveal_strlit("failed");
    reveal_strlit("skipped");
    reveal_strlit("errors");
    reveal_with_fuel(member_from, 7);
    assert("format"@[0] == 'f' && "status"@[0] == 's' && "counts"@[0] == 'c' && "diagnostics"@.len()
        == 11 && "omitted"@.len() == 7 && "completeness"@.len() == 12);
    assert("format"@.len() == 6 && "status"@.len() == 6 && "counts"@.len() == 6);
    assert("passed"@[0] == 'p' && "failed"@[0] == 'f' && "errors"@[0] == 'e' && "total"@.len() == 5
        && "skipped"@.len() == 7);
    assert("passed"@.len() == 6 && "failed"@.len() == 6 && "errors"@.len() == 6);
}

/// A hunk gives its two ranges, and what is shown of another command its status.
pub proof fn hunks_are_written(value: ModelHunkModel, command: CommandProjectionModel)
    ensures
        ({
            let shown = ModelHunk::json(value);
            &&& counts(shown.member("old_start"@), value.old_start as nat)
            &&& counts(shown.member("old_lines"@), value.old_lines as nat)
            &&& counts(shown.member("new_start"@), value.new_start as nat)
            &&& counts(shown.member("new_lines"@), value.new_lines as nat)
        }),
        CommandProjection::json(command).member("status"@) == Some(JsonModel::Text(command.status)),
{
    reveal_strlit("old_start");
    reveal_strlit("old_lines");
    reveal_strlit("new_start");
    reveal_strlit("new_lines");
    reveal_with_fuel(member_from, 5);
    assert("old_start"@[0] == 'o' && "old_lines"@[0] == 'o' && "new_start"@[0] == 'n'
        && "new_lines"@[0] == 'n');
    assert("old_start"@[4] == 's' && "old_lines"@[4] == 'l' && "new_start"@[4] == 's'
        && "new_lines"@[4] == 'l');
}

/// The answer of the hook says whether to go on and what to show; the answer before a command
/// is run says that it may run, and which command is run instead.
pub proof fn answers_are_written(after: HookOutputModel, before: PreToolUseOutputModel)
    ensures
        HookOutput::json(after).member("continue"@) == Some(JsonModel::Bool(after.should_continue)),
        HookOutput::json(after).member("stopReason"@) == Some(JsonModel::Text(after.stop_reason)),
        PreToolUseOutput::json(before).member("hookSpecificOutput"@) matches Some(specific) && {
            let own = before.hook_specific_output;
            &&& specific.member("hookEventName"@) == Some(JsonModel::Text(own.hook_event_name))
            &&& specific.member("permissionDecision"@) == Some(
                JsonModel::Text(own.permission_decision),
            )
            &&& specific.member("updatedInput"@) is Some && specific.member(
                "updatedInput"@,
            )->0.member("command"@) == Some(JsonModel::Text(own.updated_input.command))
        },
{
    reveal_strlit("continue");
    reveal_strlit("stopReason");
    reveal_strlit("hookEventName");
    reveal_strlit("permissionDecision");
    reveal_strlit("updatedInput");
    reveal_with_fuel(member_from, 4);
    assert("continue"@.len() == 8 && "stopReason"@.len() == 10);
    assert("hookEventName"@.len() == 13 && "permissionDecision"@.len() == 18
        && "updatedInput"@.len() == 12);
}

} // verus!
