//! What is promised of the projections that are shown in place of output.

use vstd::prelude::*;
use crate::delta;
use crate::hook::commands::{
    self, CargoExecutionKind, CargoExecutionRequest, LogExecutionRequest, Shell,
};
use crate::hook::projections::{
    build_projection, diff_projection, given_bytes, log_projection, place_text, post_answer,
    pre_answer, report_diagnostic, report_place, report_places_from, response_status, settled,
    shown_cargo, shown_log, unwrapped, whole_output, PostToolUseModel,
};
use crate::hook::{CommandProjectionModel, ModelProjection, ModelProjectionModel};
use crate::json::{self, JsonModel, ToJson};
use crate::log;
use crate::observe;
use crate::text;

verus! {

broadcast use vstd::string::group_string_axioms;

/// The word for a verdict.
pub open spec fn verdict_word(passed: bool, failed: bool) -> Seq<char> {
    if passed {
        "passed"@
    } else if failed {
        "failed"@
    } else {
        "unknown"@
    }
}

/// The projection of a report says all that the pack does: its format and its verdict, its
/// counts, how much is left out, and every diagnostic with its words and its place.
pub proof fn reports_are_shown(pack: log::LogPackModel)
    ensures
        ({
            let shown = log_projection(pack);
            &&& shown.status == verdict_word(
                pack.verdict == log::Verdict::Passed,
                pack.verdict == log::Verdict::Failed,
            )
            &&& shown.counts.total == pack.counts.total && shown.counts.passed
                == pack.counts.passed && shown.counts.failed == pack.counts.failed
                && shown.counts.skipped == pack.counts.skipped && shown.counts.errors
                == pack.counts.errors
            &&& pack.omitted is None ==> shown.omitted == 0
            &&& pack.omitted matches Some(omitted) ==> shown.omitted == omitted.count
            &&& pack.kind == log::InputKind::JunitXml ==> shown.format == "junit_xml"@
            &&& pack.kind == log::InputKind::SarifJson ==> shown.format == "sarif_2_1_0"@
            &&& pack.kind == log::InputKind::GenericText ==> shown.format == "generic_text_log"@
            &&& pack.kind == log::InputKind::NextestText ==> shown.format == "nextest_text"@
            &&& shown.diagnostics.len() == pack.diagnostics.len()
            &&& forall|k: int| #![trigger shown.diagnostics[k]]
                0 <= k < pack.diagnostics.len() ==> {
                    let d = pack.diagnostics[k];
                    let s = shown.diagnostics[k];
                    &&& s.message == d.message && s.code == d.rule_id && s.suite == d.suite
                        && s.test == d.test
                    &&& d.category == log::DiagnosticCategory::Failure ==> s.kind == "failure"@
                    &&& d.category == log::DiagnosticCategory::Error ==> s.kind == "error"@
                    &&& d.category == log::DiagnosticCategory::Panic ==> s.kind == "panic"@
                    &&& d.category == log::DiagnosticCategory::Sarif ==> s.kind == "sarif"@
                    &&& d.file is None ==> s.location is None
                    &&& d.file is Some && d.line is Some && d.column is Some ==> s.location == Some(
                        d.file->0 + ":"@ + text::decimal(d.line->0 as nat) + ":"@ + text::decimal(
                            d.column->0 as nat,
                        ),
                    )
                    &&& d.file is Some && d.line is None && d.column is None ==> s.location == Some(
                        place_text(d.file->0, 1, 1),
                    )
                }
        }),
{
}

/// The projection of a build or a test run says all that the observation does.
pub proof fn observations_are_shown(pack: observe::ObservationPackModel)
    ensures
        ({
            let shown = build_projection(pack);
            &&& shown.status == verdict_word(
                pack.verdict == observe::Verdict::Passed,
                pack.verdict == observe::Verdict::Failed,
            )
            &&& pack.tests is None <==> shown.tests is None
            &&& pack.tests matches Some(tests) ==> shown.tests->0.passed == tests.passed
                && shown.tests->0.failed == tests.failed && shown.tests->0.ignored == tests.ignored
            &&& shown.diagnostics.len() == pack.diagnostics.len()
            &&& forall|k: int| #![trigger shown.diagnostics[k]]
                0 <= k < pack.diagnostics.len() ==> {
                    let d = pack.diagnostics[k];
                    let s = shown.diagnostics[k];
                    &&& s.message == d.message && s.code == d.code && s.kind == d.kind
                    &&& d.primary_location is None ==> s.location is None
                    &&& d.primary_location matches Some(place) ==> s.location == Some(
                        place.file + ":"@ + text::decimal(place.line as nat) + ":"@ + text::decimal(
                            place.column as nat,
                        ),
                    )
                    &&& s.related_locations.len() == d.related_locations.len()
                    &&& forall|n: int| #![trigger s.related_locations[n]]
                        0 <= n < d.related_locations.len() ==> s.related_locations[n]
                            == d.related_locations[n].file + ":"@ + text::decimal(
                            d.related_locations[n].line as nat,
                        ) + ":"@ + text::decimal(d.related_locations[n].column as nat)
                }
        }),
{
}

/// The projection of a diff says all that the delta does: every file with its two paths, what
/// became of it, its hunks and its counts, and the summary.
pub proof fn deltas_are_shown(pack: delta::DeltaPackModel)
    ensures
        ({
            let shown = diff_projection(pack);
            &&& pack.verdict == delta::DeltaVerdict::Clean ==> shown.status == "clean"@
            &&& pack.verdict == delta::DeltaVerdict::Changed ==> shown.status == "changed"@
            &&& shown.summary.files_changed == pack.summary.files_changed
                && shown.summary.files_added == pack.summary.files_added
                && shown.summary.files_deleted == pack.summary.files_deleted
                && shown.summary.files_renamed == pack.summary.files_renamed
                && shown.summary.binary_files == pack.summary.binary_files
                && shown.summary.additions == pack.summary.additions && shown.summary.deletions
                == pack.summary.deletions
            &&& shown.files.len() == pack.files.len()
            &&& forall|k: int| #![trigger shown.files[k]]
                0 <= k < pack.files.len() ==> {
                    let f = pack.files[k];
                    let s = shown.files[k];
                    &&& s.old_path == f.old_path && s.new_path == f.new_path && s.binary
                        == f.is_binary && s.additions == f.additions && s.deletions == f.deletions
                    &&& f.change_kind == delta::ChangeKind::Added ==> s.change_kind == "added"@
                    &&& f.change_kind == delta::ChangeKind::Modified ==> s.change_kind
                        == "modified"@
                    &&& f.change_kind == delta::ChangeKind::Deleted ==> s.change_kind == "deleted"@
                    &&& f.change_kind == delta::ChangeKind::Renamed ==> s.change_kind == "renamed"@
                    &&& s.hunks.len() == f.hunks.len()
                    &&& forall|n: int| #![trigger s.hunks[n]]
                        0 <= n < f.hunks.len() ==> s.hunks[n].old_start == f.hunks[n].old_start
                            && s.hunks[n].old_lines == f.hunks[n].old_lines && s.hunks[n].new_start
                            == f.hunks[n].new_start && s.hunks[n].new_lines == f.hunks[n].new_lines
                }
        }),
{
}

/// A run of Cargo whose output was kept and read is shown with the verdict of the output, or
/// with that of the process where the output gives none: a build by what it wrote out, a test
/// by that and by what it wrote as errors. One whose output was not kept is shown by the word on
/// the process alone.
pub proof fn runs_are_shown(
    kind: CargoExecutionKind,
    stdout: Seq<u8>,
    stderr: Seq<u8>,
    success: bool,
    kept: bool,
)
    ensures
        ({
            let shown = shown_cargo(kind, stdout, stderr, success, kept);
            let builds = kind == CargoExecutionKind::BuildJson;
            let raw = if builds {
                stdout
            } else if stderr.len() == 0 {
                stdout
            } else {
                whole_output(stdout, stderr)
            };
            let pack = observe::pack_of(
                if builds {
                    observe::InputKind::CargoJson
                } else {
                    observe::InputKind::CargoTestText
                },
                raw,
            );
            &&& kept && pack is Ok ==> {
                let result = if builds {
                    shown->Build_0
                } else {
                    shown->Test_0
                };
                &&& builds ==> shown is Build
                &&& !builds ==> shown is Test
                &&& pack->Ok_0.verdict == observe::Verdict::Passed ==> result.status == "passed"@
                &&& pack->Ok_0.verdict == observe::Verdict::Failed ==> result.status == "failed"@
                &&& pack->Ok_0.verdict == observe::Verdict::Unknown ==> result.status == if success {
                    "passed"@
                } else {
                    "failed"@
                }
                &&& result.diagnostics.len() == pack->Ok_0.diagnostics.len()
            }
            &&& !kept || pack is Err ==> shown is Command && shown->Command_0.status
                == if success {
                "completed"@
            } else {
                "failed"@
            }
        }),
{
    reveal_strlit("passed");
    reveal_strlit("failed");
    reveal_strlit("unknown");
    assert("passed"@[0] == 'p' && "failed"@[0] == 'f' && "unknown"@[0] == 'u');
}

proof fn bytes_are_found(raw: Seq<u8>, marker: Seq<u8>, i: int, n: int)
    requires
        0 <= i <= n,
        n + marker.len() <= raw.len(),
        raw.subrange(n, n + marker.len()) == marker,
        forall|k: int|
            i <= k < n ==> #[trigger] raw.subrange(k, k + marker.len()) != marker,
    ensures
        crate::hook::projections::bytes_found_from(raw, marker, i) == Some(n),
    decreases n - i,
{
    if i < n {
        assert(raw.subrange(i, i + marker.len()) != marker);
        bytes_are_found(raw, marker, i + 1, n);
    }
}

/// What a tool puts around the output of a command is taken off: what stands behind the first
/// line that announces the output is the output. Output that does not open as such a note is
/// left as it is.
pub proof fn notes_are_taken_off(note: Seq<u8>, output: Seq<u8>)
    ensures
        ({
            let opening = vstd::utf8::encode_utf8("Wall time:"@);
            let marker = vstd::utf8::encode_utf8("\nOutput:\n"@);
            let raw = opening + note + marker + output;
            &&& (forall|k: int|
                0 <= k < (opening + note).len() ==> #[trigger] raw.subrange(k, k + marker.len())
                    != marker) ==> unwrapped(raw) == output
            &&& (output.len() < opening.len() || output.take(opening.len() as int) != opening)
                ==> unwrapped(output) == output
        }),
{
    let opening = vstd::utf8::encode_utf8("Wall time:"@);
    let marker = vstd::utf8::encode_utf8("\nOutput:\n"@);
    let raw = opening + note + marker + output;
    let n = (opening + note).len() as int;
    assert(raw.subrange(0, opening.len() as int) =~= opening);
    assert(raw.subrange(n, n + marker.len()) =~= marker);
    if forall|k: int| 0 <= k < n ==> #[trigger] raw.subrange(k, k + marker.len()) != marker {
        bytes_are_found(raw, marker, 0, n);
        assert(raw.subrange(n + marker.len(), raw.len() as int) =~= output);
    }
    if output.len() >= opening.len() {
        assert(output.take(opening.len() as int) =~= output.subrange(0, opening.len() as int));
    }
}

/// A response gives its own text, or else the first text that it has as output, as standard
/// output or as text.
pub proof fn responses_give_their_text(response: JsonModel, words: Seq<char>)
    ensures
        response == JsonModel::Text(words) ==> given_bytes(response) == vstd::utf8::encode_utf8(
            words,
        ),
        response is Object && response.member("output"@) == Some(JsonModel::Text(words))
            ==> given_bytes(response) == vstd::utf8::encode_utf8(words),
        response is Object && response.member("output"@) is None && response.member("stdout"@)
            == Some(JsonModel::Text(words)) ==> given_bytes(response) == vstd::utf8::encode_utf8(
            words,
        ),
        response is Object && response.member("output"@) is None && response.member("stdout"@)
            is None && response.member("text"@) == Some(JsonModel::Text(words)) ==> given_bytes(
            response,
        ) == vstd::utf8::encode_utf8(words),
{
}

/// The output of a command that shows a diff is answered with the projection of the diff, and
/// that of a build or a test with the projection of the observation; output that cannot be read
/// is answered as such, and the raw output is kept where it was not shown in full. Nothing is
/// answered to another event.
pub proof fn output_is_answered(
    event: Seq<char>,
    tool_input: JsonModel,
    response: JsonModel,
    command: Seq<char>,
)
    requires
        tool_input.member("command"@) == Some(JsonModel::Text(command)),
        response.member("operation"@) is None || response.member("result"@) is None,
    ensures
        ({
            let answer = post_answer(event, "Bash"@, tool_input, response);
            let raw = unwrapped(given_bytes(response));
            let kind = commands::build_kind(command, raw);
            &&& event != "PostToolUse"@ ==> answer is Ok && answer->Ok_0 is None
            &&& event == "PostToolUse"@ ==> answer is Ok && answer->Ok_0 is Some && {
                let shown = answer->Ok_0->0;
                &&& !shown.output.should_continue
                &&& commands::asks_for_diff(command) && delta::delta_of(raw) is Ok ==> {
                    &&& shown.output.stop_reason == json::written(
                        ModelProjection::json(
                            ModelProjectionModel::Diff(
                                diff_projection(delta::delta_of(raw)->Ok_0),
                            ),
                        ),
                    )
                    &&& !shown.keep_raw && shown.keep_semantic
                }
                &&& commands::asks_for_diff(command) && delta::delta_of(raw) is Err
                    ==> shown.keep_raw
                &&& !commands::asks_for_diff(command) && kind is Some && observe::pack_of(
                    kind->0,
                    raw,
                ) is Ok ==> {
                    let projection = build_projection(observe::pack_of(kind->0, raw)->Ok_0);
                    &&& shown.output.stop_reason == json::written(
                        ModelProjection::json(
                            if kind->0 == observe::InputKind::CargoJson {
                                ModelProjectionModel::Build(projection)
                            } else {
                                ModelProjectionModel::Test(projection)
                            },
                        ),
                    )
                    &&& !shown.keep_raw && shown.keep_semantic
                }
                &&& !commands::asks_for_diff(command) && kind is None ==> shown.keep_raw
                    && !shown.keep_semantic
            }
        }),
{
}

/// A command that is recognised is replaced by a run of the executable on a request, which is
/// written down; a run of Cargo goes before a report.
pub proof fn recognised_commands_are_replaced(
    cwd: Seq<char>,
    tool_input: JsonModel,
    executable: Seq<char>,
    shell: Shell,
    timestamp: u128,
    command: Seq<char>,
)
    requires
        tool_input.member("command"@) == Some(JsonModel::Text(command)),
    ensures
        ({
            let answer = pre_answer(
                "PreToolUse"@,
                cwd,
                "Bash"@,
                tool_input,
                executable,
                shell,
                Some(timestamp),
            );
            let cargo = commands::cargo_request(command, cwd);
            let report = commands::log_request(command, cwd);
            &&& answer is Ok
            &&& cargo is None && report is None ==> answer->Ok_0 is None
            &&& cargo is Some || report is Some ==> answer->Ok_0 is Some && {
                let instead = answer->Ok_0->0;
                let specific = instead.output.hook_specific_output;
                &&& specific.permission_decision == "allow"@
                &&& specific.updated_input.command == commands::executor_command(
                    shell,
                    executable,
                    if cargo is Some {
                        "execute-cargo"@
                    } else {
                        "execute-log"@
                    },
                    instead.request_path,
                )
                &&& instead.request == json::written(
                    if cargo is Some {
                        CargoExecutionRequest::json(cargo->0)
                    } else {
                        LogExecutionRequest::json(report->0)
                    },
                )
            }
        }),
{
}

/// The status of a response is by its exit code, under either of its two names: zero means that
/// the command is done, anything else that it failed, and without a code nothing is known.
pub proof fn exit_codes_tell_the_status(response: JsonModel, code: json::NumberModel)
    ensures
        response.member("exit_code"@) == Some(JsonModel::Number(code)) || (response.member(
            "exit_code"@,
        ) is None && response.member("exitCode"@) == Some(JsonModel::Number(code)))
            ==> response_status(response) == if code.signed == Some(0i64) {
            "completed"@
        } else if code.signed is Some {
            "failed"@
        } else {
            "unknown"@
        },
        response.member("exit_code"@) is None && response.member("exitCode"@) is None
            ==> response_status(response) == "unknown"@,
{
}

/// What could be shown but not kept is told as a failure to read it, and the raw output stays;
/// any other answer stays as it is.
pub proof fn answers_that_are_not_kept_are_not_shown(answer: PostToolUseModel, kept: bool)
    ensures
        kept || !answer.keep_semantic ==> settled(answer, kept) == answer,
        !kept && answer.keep_semantic ==> settled(answer, kept).keep_raw && settled(
            answer,
            kept,
        ).output.stop_reason == json::written(
            ModelProjection::json(
                ModelProjectionModel::Command(
                    CommandProjectionModel {
                        status: "normalization_failed"@,
                        completeness: "No structured semantic result is available for this operation."@,
                    },
                ),
            ),
        ),
{
}

proof fn located_places_are_shown_from(locations: Seq<log::SourceLocationModel>, i: int)
    requires
        0 <= i <= locations.len(),
        forall|k: int| 0 <= k < locations.len() ==> (#[trigger] locations[k]).file is Some,
    ensures
        report_places_from(locations, i).len() == locations.len() - i,
        forall|k: int| #![trigger report_places_from(locations, i)[k]]
            0 <= k < locations.len() - i ==> Some(report_places_from(locations, i)[k])
                == report_place(
                locations[i + k].file,
                locations[i + k].line,
                locations[i + k].column,
            ),
    decreases locations.len() - i,
{
    if i < locations.len() {
        located_places_are_shown_from(locations, i + 1);
        assert(locations[i].file is Some);
        let rest = report_places_from(locations, i + 1);
        let all = report_places_from(locations, i);
        assert forall|k: int| #![trigger all[k]] 0 <= k < locations.len() - i implies Some(all[k])
            == report_place(
            locations[i + k].file,
            locations[i + k].line,
            locations[i + k].column,
        ) by {
            if k > 0 {
                assert(all[k] == rest[k - 1]);
            }
        }
    }
}

/// The places that are related to a diagnostic are shown in their order, each as a file, a line
/// and a column.
pub proof fn related_places_are_shown(diagnostic: log::DiagnosticModel, k: int)
    requires
        forall|n: int|
            0 <= n < diagnostic.related_locations.len() ==> (
            #[trigger] diagnostic.related_locations[n]).file is Some,
        0 <= k < diagnostic.related_locations.len(),
    ensures
        ({
            let shown = report_diagnostic(diagnostic).related_locations;
            let place = diagnostic.related_locations[k];
            &&& shown.len() == diagnostic.related_locations.len()
            &&& place.line is Some && place.column is Some ==> shown[k] == place.file->0 + ":"@
                + text::decimal(place.line->0 as nat) + ":"@ + text::decimal(
                place.column->0 as nat,
            )
        }),
{
    located_places_are_shown_from(diagnostic.related_locations, 0);
    let shown = report_diagnostic(diagnostic).related_locations;
    assert(Some(shown[k]) == report_place(
        diagnostic.related_locations[0 + k].file,
        diagnostic.related_locations[0 + k].line,
        diagnostic.related_locations[0 + k].column,
    ));
}

/// A report is shown where it could be read and kept, and told as unreadable otherwise, in the
/// same format.
pub proof fn reports_are_shown_where_they_are_kept(
    kind: log::InputKind,
    raw: Seq<u8>,
    success: bool,
    root: Seq<char>,
    kept: bool,
)
    ensures
        ({
            let shown = shown_log(kind, raw, success, root, kept);
            let pack = log::pack_of(kind, raw, success, root);
            &&& kept && pack is Ok ==> shown == log_projection(pack->Ok_0)
            &&& !kept || pack is Err ==> shown.status == "normalization_failed"@
                && shown.diagnostics.len() == 0 && shown.counts.total == 0
        }),
{
}

} // verus!
