use cabal_runtime::causal_context::capture::ReplayReason;
use cabal_runtime::causal_context::gateway::{Outcome, RequestRejection};
use cabal_runtime::causal_context::search::ExactSearch;
use cabal_runtime::digest::sha256_text;
use cabal_runtime::hook::commands::{
    artifact_root_for, build_executor_command, build_input_kind, infer_log_kind, is_git_diff,
    parse_simple_cargo_command, parse_simple_log_command, quote_posix_shell, quote_powershell,
    CargoExecutionKind, CargoExecutionRequest, LogExecutionRequest, LogExecutionSource, Shell,
};
use cabal_runtime::hook::projections::{
    check_report_file, command_status, complete_raw, execute_cargo_request, execute_log_request,
    fallback_output, generic_projection, prepare_pre_tool_use, project_post_tool_use,
    reconcile_process_status, response_bytes, settle, strip_codex_output_wrapper, HookError,
    PostToolUse, PostToolUseInput, PreToolUse, PreToolUseInput,
};
use cabal_runtime::hook::reply::reply;
use cabal_runtime::hook::{BuildProjection, ModelProjection, ModelTests};
use cabal_runtime::json::{parse, Json, ToJson};
use cabal_runtime::log::InputKind as LogInputKind;
use cabal_runtime::observe::InputKind;

fn json(text: &str) -> Json {
    parse(text.as_bytes()).unwrap()
}

fn command_json(command: &str) -> Json {
    let quoted = serde_json::to_string(command).unwrap();
    json(&format!("{{\"command\":{quoted}}}"))
}

fn bash_input(command: &str, response: &str) -> PostToolUseInput {
    PostToolUseInput {
        hook_event_name: "PostToolUse".to_owned(),
        cwd: "/workspace".to_owned(),
        tool_name: "Bash".to_owned(),
        tool_input: command_json(command),
        tool_response: Json::Text(response.to_owned()),
    }
}

fn answered(input: &PostToolUseInput) -> PostToolUse {
    project_post_tool_use(input).unwrap().unwrap()
}

fn before(command: &str) -> Option<PreToolUse> {
    let input = PreToolUseInput {
        hook_event_name: "PreToolUse".to_owned(),
        cwd: "/workspace".to_owned(),
        tool_name: "Bash".to_owned(),
        tool_input: command_json(command),
    };
    prepare_pre_tool_use(&input, "/opt/cabal-runtime-hook", Shell::Posix, Some(7)).unwrap()
}

#[test]
fn hides_raw_cargo_json_from_returned_hook_message() {
    let raw = "{\"reason\":\"compiler-message\",\"message\":{\"level\":\"error\",\"message\":\"use of moved value: `branches`\",\"code\":{\"code\":\"E0382\"},\"spans\":[{\"file_name\":\"src/query.rs\",\"line_start\":184,\"column_start\":9,\"is_primary\":true}]}}\n{\"reason\":\"build-finished\",\"success\":false}\n";

    let answer = answered(&bash_input("cargo check --message-format=json", raw));
    let output = answer.output;

    assert!(!output.should_continue);
    assert!(output.stop_reason.contains("E0382"));
    assert!(output.stop_reason.contains("src/query.rs:184:9"));
    assert!(!output.stop_reason.contains("artifact://"));
    assert!(!output.stop_reason.contains("sha256"));
    assert!(!output.stop_reason.contains("cabal"));
    assert!(answer.keep_semantic);
}

#[test]
fn hides_raw_diff_but_retains_structural_delta() {
    let raw = "diff --git a/src/lib.rs b/src/lib.rs\nindex aaa..bbb 100644\n--- a/src/lib.rs\n+++ b/src/lib.rs\n@@ -1 +1 @@\n-old\n+new\n";

    let output = answered(&bash_input("git diff", raw)).output;

    assert!(!output.should_continue);
    assert!(output.stop_reason.contains("\"operation\":\"diff\""));
    assert!(output.stop_reason.contains("src/lib.rs"));
    assert!(!output.stop_reason.contains("index aaa..bbb"));
    assert!(!output.stop_reason.contains("artifact://"));
}

#[test]
fn hides_raw_output_for_unclassified_bash_commands() {
    let answer = answered(&bash_input("echo raw", "raw"));

    let output = answer.output;
    assert!(!output.should_continue);
    assert!(output.stop_reason.contains("\"operation\":\"command\""));
    assert!(!output.stop_reason.contains("raw"));
    assert!(!output.stop_reason.contains("internally"));
    assert!(answer.keep_raw);
    assert!(!answer.keep_semantic);
}

#[test]
fn non_bash_payloads_fail_closed_to_a_bounded_projection() {
    let input = PostToolUseInput {
        hook_event_name: "PostToolUse".to_owned(),
        cwd: "/workspace".to_owned(),
        tool_name: "WebSearch".to_owned(),
        tool_input: json("{\"query\":\"ignored\"}"),
        tool_response: Json::Text("private-search-result".to_owned()),
    };

    let answer = answered(&input);

    assert!(!answer.output.should_continue);
    assert!(answer
        .output
        .stop_reason
        .contains("\"operation\":\"command\""));
    assert!(!answer.output.stop_reason.contains("private-search-result"));
    assert!(answer.keep_raw);
}

#[test]
fn fallback_projection_has_no_runtime_details() {
    let output = fallback_output();

    assert!(!output.should_continue);
    assert!(output.stop_reason.contains("\"operation\":\"command\""));
    for forbidden in ["cabal", "raw", "artifact://", "sha256", "internally"] {
        assert!(!output.stop_reason.contains(forbidden));
    }
}

#[test]
fn the_fallback_is_what_an_unknown_command_shows() {
    let shown = generic_projection("unknown").to_json().to_text();
    assert_eq!(fallback_output().stop_reason, shown);
}

#[test]
fn strips_only_the_codex_execution_wrapper_before_cargo_normalization() {
    let raw = "Wall time: 0.01 seconds\nOutput:\n{\"reason\":\"build-finished\",\"success\":true}\n";

    let output = answered(&bash_input("cargo check --message-format=json", raw)).output;

    assert!(output.stop_reason.contains("\"operation\":\"build\""));
    assert!(output.stop_reason.contains("\"status\":\"passed\""));
    assert!(!output.stop_reason.contains("Wall time"));
}

#[test]
fn the_wrapper_is_stripped_at_its_first_mark_alone() {
    for (raw, expected) in [
        ("Wall time: 1\nOutput:\nx\nOutput:\ny", "x\nOutput:\ny"),
        ("Wall time: 1\r\nOutput:\r\nx", "x"),
        ("Wall time: 1\nno mark", "Wall time: 1\nno mark"),
        ("mine\nOutput:\nx", "mine\nOutput:\nx"),
        ("Wall", "Wall"),
    ] {
        assert_eq!(
            strip_codex_output_wrapper(raw.as_bytes()),
            expected.as_bytes()
        );
    }
}

#[test]
fn preserves_an_existing_projection_across_a_second_post_tool_use_pass() {
    let projection =
        "{\"operation\":\"build\",\"result\":{\"completeness\":\"Complete.\",\"status\":\"passed\"}}";
    let input = PostToolUseInput {
        hook_event_name: "PostToolUse".to_owned(),
        cwd: "/workspace".to_owned(),
        tool_name: "Bash".to_owned(),
        tool_input: command_json("cargo check"),
        tool_response: json(projection),
    };

    let answer = answered(&input);

    assert_eq!(
        serde_json::from_str::<serde_json::Value>(&answer.output.stop_reason).unwrap(),
        serde_json::from_str::<serde_json::Value>(projection).unwrap()
    );
    assert!(!answer.keep_raw && !answer.keep_semantic);
}

#[test]
fn rewrites_only_a_simple_supported_cargo_command() {
    let original = "cargo +nightly test -p cabal-runtime-hook";
    let answer = before(original).unwrap();
    let serialized = answer.output.to_json().to_text();

    assert!(!serialized.contains(original));
    assert!(serialized.contains("execute-cargo"));
    let request = parse_simple_cargo_command(original, "/workspace").unwrap();
    assert_eq!(answer.request, request.to_json().to_text());
    assert_eq!(
        request.cargo_args,
        ["+nightly", "test", "-p", "cabal-runtime-hook"]
    );
    assert_eq!(request.kind, CargoExecutionKind::TestText);
    assert_eq!(
        answer.request,
        "{\"cwd\":\"/workspace\",\"cargo_args\":[\"+nightly\",\"test\",\"-p\",\"cabal-runtime-hook\"],\"kind\":\"test_text\"}"
    );
    let id = sha256_text(format!("{}7", answer.request).as_bytes());
    assert_eq!(
        answer.request_path,
        format!("/workspace/.cabal/requests/{id}.json")
    );
    assert_eq!(
        serialized,
        format!("{{\"hookSpecificOutput\":{{\"hookEventName\":\"PreToolUse\",\"permissionDecision\":\"allow\",\"updatedInput\":{{\"command\":\"'/opt/cabal-runtime-hook' execute-cargo --request '{}'\"}}}}}}", answer.request_path)
    );
}

#[test]
fn inserts_json_format_before_clippy_rustc_arguments() {
    let request = parse_simple_cargo_command("cargo +nightly clippy -- -D warnings", ".").unwrap();

    assert_eq!(
        request.cargo_args,
        [
            "+nightly",
            "clippy",
            "--message-format=json",
            "--",
            "-D",
            "warnings"
        ]
    );
}

#[test]
fn leaves_shell_composition_and_non_json_build_formats_untouched() {
    for command in [
        "cargo test; echo leaked",
        "cargo check --message-format=human",
        "rg Cabal",
    ] {
        assert!(before(command).is_none());
    }
}

#[test]
fn test_projection_uses_a_test_operation_tag() {
    let projection = ModelProjection::Test(BuildProjection {
        status: "passed".to_owned(),
        diagnostics: Vec::new(),
        tests: Some(ModelTests {
            passed: Some(1),
            failed: Some(0),
            ignored: Some(0),
        }),
        completeness: "Complete.".to_owned(),
    });

    let serialized = projection.to_json().to_text();
    assert!(serialized.contains("\"operation\":\"test\""));
    assert_eq!(
        serialized,
        "{\"operation\":\"test\",\"result\":{\"status\":\"passed\",\"diagnostics\":[],\"tests\":{\"passed\":1,\"failed\":0,\"ignored\":0},\"completeness\":\"Complete.\"}}"
    );
}

#[test]
fn successful_process_resolves_unknown_projection_to_passed() {
    let mut projection = ModelProjection::Build(BuildProjection {
        status: "unknown".to_owned(),
        diagnostics: Vec::new(),
        tests: None,
        completeness: "Complete.".to_owned(),
    });
    reconcile_process_status(&mut projection, true);
    let ModelProjection::Build(result) = projection else {
        panic!("expected build projection");
    };
    assert_eq!(result.status, "passed");
}

#[test]
fn failed_process_resolves_unknown_projection_to_failed() {
    let mut projection = ModelProjection::Test(BuildProjection {
        status: "unknown".to_owned(),
        diagnostics: Vec::new(),
        tests: None,
        completeness: "Complete.".to_owned(),
    });
    reconcile_process_status(&mut projection, false);
    let ModelProjection::Test(result) = projection else {
        panic!("expected test projection");
    };
    assert_eq!(result.status, "failed");
}

#[test]
fn a_known_status_is_not_reconciled() {
    let mut projection = ModelProjection::Test(BuildProjection {
        status: "failed".to_owned(),
        diagnostics: Vec::new(),
        tests: None,
        completeness: "Complete.".to_owned(),
    });
    reconcile_process_status(&mut projection, true);
    let ModelProjection::Test(result) = projection else {
        panic!("expected test projection");
    };
    assert_eq!(result.status, "failed");
}

#[test]
fn rewrites_a_supported_report_read_to_the_log_executor() {
    let answer = before("Get-Content results.junit.xml").unwrap();
    let serialized = answer.output.to_json().to_text();

    assert!(serialized.contains("execute-log"));
    assert!(!serialized.contains("Get-Content"));
    let request = parse_simple_log_command("Get-Content results.junit.xml", "/workspace").unwrap();
    assert_eq!(
        request.source,
        LogExecutionSource::File {
            path: "/workspace/results.junit.xml".to_owned(),
            kind: LogInputKind::JunitXml
        }
    );
    assert_eq!(
        answer.request,
        "{\"cwd\":\"/workspace\",\"source\":{\"source\":\"file\",\"path\":\"/workspace/results.junit.xml\",\"kind\":\"JunitXml\"}}"
    );
}

#[test]
fn report_grammar_rejects_composition_and_unknown_suffixes() {
    for command in [
        "Get-Content results.junit.xml; echo leaked",
        "cat report.xml",
        "Get-Content report.txt",
        "cargo nextest run && echo leaked",
    ] {
        assert!(before(command).is_none());
    }
}

#[test]
fn executes_junit_read_without_returning_raw_or_artifact_metadata() {
    let raw = format!(
        r#"<testsuite name="integration"><testcase name="fails"><failure message="assertion failed" file="src/lib.rs" line="9"/></testcase><system-out>UNIQUE_RAW_MARKER{}</system-out></testsuite>"#,
        "x".repeat(10_000)
    );
    let root = artifact_root_for("/workspace");
    let projection = execute_log_request(
        LogInputKind::JunitXml,
        raw.as_bytes(),
        true,
        &root,
        true,
    );

    assert!(projection.contains("\"operation\":\"log\""));
    assert!(projection.contains("\"format\":\"junit_xml\""));
    assert!(projection.contains("\"suite\":\"integration\""));
    assert!(projection.contains("\"test\":\"fails\""));
    assert!(projection.contains("src/lib.rs:9:1"));
    assert!(!projection.contains("UNIQUE_RAW_MARKER"));
    assert!(!projection.contains("artifact"));
    assert!(!projection.contains("sha256"));
    assert!(!projection.contains("cabal"));
    assert!(projection.len() * 10 < raw.len());
}

#[test]
fn malformed_structured_report_never_claims_success() {
    let projection = execute_log_request(
        LogInputKind::JunitXml,
        "<testsuite>".as_bytes(),
        true,
        "/workspace/.cabal/artifacts",
        true,
    );

    assert!(projection.contains("normalization_failed"));
    assert!(!projection.contains("\"status\":\"passed\""));
    assert_eq!(
        projection,
        "{\"operation\":\"log\",\"result\":{\"format\":\"junit_xml\",\"status\":\"normalization_failed\",\"diagnostics\":[],\"counts\":{\"total\":0,\"passed\":0,\"failed\":0,\"skipped\":0,\"errors\":0},\"omitted\":0,\"completeness\":\"structured input was invalid; no semantic success is claimed\"}}"
    );
}

#[test]
fn what_could_not_be_kept_is_not_shown() {
    let report = "<testsuite name=\"a\"><testcase name=\"b\"/></testsuite>".as_bytes();
    let kept = execute_log_request(LogInputKind::JunitXml, report, true, "/a", true);
    assert!(kept.contains("\"status\":\"passed\""));
    let lost = execute_log_request(LogInputKind::JunitXml, report, true, "/a", false);
    assert!(lost.contains("normalization_failed"));
    let build = "{\"reason\":\"build-finished\",\"success\":true}\n".as_bytes();
    let lost = execute_cargo_request(CargoExecutionKind::BuildJson, build, &[], true, false);
    assert!(lost.contains("\"operation\":\"command\""));
    assert!(lost.contains("\"status\":\"completed\""));
    let answer = answered(&bash_input("git diff", ""));
    assert!(answer.output.stop_reason.contains("\"status\":\"clean\""));
    let settled = settle(answer, false);
    assert!(settled.output.stop_reason.contains("normalization_failed"));
    assert!(settled.keep_raw);
}

#[test]
fn log_executor_rejects_files_outside_the_workspace() {
    assert_eq!(
        check_report_file("/elsewhere/report.log", "/workspace", true),
        Err(HookError::InvalidInput(
            "report path is outside the workspace".to_owned()
        ))
    );
    assert!(check_report_file("/workspace/directory", "/workspace", false).is_err());
    assert!(check_report_file("/workspaces/report.log", "/workspace", true).is_err());
    assert_eq!(
        check_report_file("/workspace/report.log", "/workspace", true),
        Ok(())
    );
}

#[test]
fn recognizes_simple_nextest_without_shell_composition() {
    let request =
        parse_simple_log_command("cargo +nightly nextest run -p cabal-runtime-hook", ".").unwrap();

    assert_eq!(
        request.source,
        LogExecutionSource::Nextest {
            cargo_args: vec![
                "+nightly".to_owned(),
                "nextest".to_owned(),
                "run".to_owned(),
                "-p".to_owned(),
                "cabal-runtime-hook".to_owned(),
            ]
        }
    );
    assert_eq!(
        request.to_json().to_text(),
        "{\"cwd\":\".\",\"source\":{\"source\":\"nextest\",\"cargo_args\":[\"+nightly\",\"nextest\",\"run\",\"-p\",\"cabal-runtime-hook\"]}}"
    );
}

#[test]
fn runs_of_cargo_are_shown_by_their_output_and_their_status() {
    let finished = "{\"reason\":\"build-finished\",\"success\":true}\n".as_bytes();
    let shown = execute_cargo_request(CargoExecutionKind::BuildJson, finished, &[], true, true);
    assert!(shown.contains("\"operation\":\"build\""));
    assert!(shown.contains("\"status\":\"passed\""));
    let silent = execute_cargo_request(CargoExecutionKind::TestText, &[], &[], false, true);
    assert!(silent.contains("\"operation\":\"test\""));
    assert!(silent.contains("\"status\":\"failed\""));
    let broken = execute_cargo_request(
        CargoExecutionKind::BuildJson,
        "{oops\n".as_bytes(),
        &[],
        false,
        true,
    );
    assert!(broken.contains("\"operation\":\"command\""));
    assert!(broken.contains("\"status\":\"failed\""));
    assert_eq!(
        complete_raw("out".as_bytes(), "err".as_bytes()),
        "out\n--- stderr ---\nerr".as_bytes()
    );
    assert_eq!(complete_raw("out".as_bytes(), &[]), "out".as_bytes());
}

#[test]
fn responses_give_bytes_and_a_status() {
    assert_eq!(
        response_bytes(&json("{\"stdout\":\"b\",\"output\":\"a\"}")),
        "a".as_bytes()
    );
    assert_eq!(
        response_bytes(&json("{\"output\":1,\"text\":\"c\"}")),
        "c".as_bytes()
    );
    assert_eq!(
        response_bytes(&json("{\"b\": 1.5, \"a\": [null, true]}")),
        "{\"a\":[null,true],\"b\":1.5}".as_bytes()
    );
    assert_eq!(command_status(&json("{\"exit_code\":0}")), "completed");
    assert_eq!(command_status(&json("{\"exitCode\":-1}")), "failed");
    assert_eq!(
        command_status(&json("{\"exit_code\":\"0\",\"exitCode\":0}")),
        "unknown"
    );
    assert_eq!(command_status(&json("\"text\"")), "unknown");
}

#[test]
fn other_events_have_no_answer_and_commands_must_be_there() {
    let mut input = bash_input("git diff", "");
    input.hook_event_name = "SessionStart".to_owned();
    assert!(project_post_tool_use(&input).unwrap().is_none());
    let mut input = bash_input("git diff", "");
    input.tool_input = json("{}");
    let Err(error) = project_post_tool_use(&input) else {
        panic!("expected a refusal");
    };
    assert_eq!(error.message(), "invalid hook input: Bash command is missing");
    let input = PreToolUseInput {
        hook_event_name: "PreToolUse".to_owned(),
        cwd: "/workspace".to_owned(),
        tool_name: "Bash".to_owned(),
        tool_input: command_json("cargo test"),
    };
    let Err(error) = prepare_pre_tool_use(&input, "/opt/x", Shell::Posix, None) else {
        panic!("expected a refusal");
    };
    assert_eq!(
        error.message(),
        "invalid hook input: system clock is before Unix epoch"
    );
}

#[test]
fn words_are_quoted_for_their_shell() {
    assert_eq!(quote_posix_shell("it's"), "'it'\\''s'");
    assert_eq!(quote_powershell("it's"), "'it''s'");
    assert_eq!(
        build_executor_command(Shell::PowerShell, "C:/x", "execute-log", "r.json"),
        "& 'C:/x' execute-log --request 'r.json'"
    );
}

#[test]
fn commands_are_told_apart() {
    assert!(is_git_diff("cd x && git   diff --stat"));
    assert!(!is_git_diff("git log diff"));
    assert_eq!(
        build_input_kind("cargo test", "running".as_bytes()),
        Some(InputKind::CargoTestText)
    );
    assert_eq!(
        build_input_kind("cargo build", "  {}".as_bytes()),
        Some(InputKind::CargoJson)
    );
    assert_eq!(build_input_kind("cargo fmt", &[]), None);
    let name: Vec<char> = "Out.SARIF.json".chars().collect();
    assert_eq!(infer_log_kind(&name), Some(LogInputKind::SarifJson));
    let name: Vec<char> = "run.nextest.log".chars().collect();
    assert_eq!(infer_log_kind(&name), Some(LogInputKind::NextestText));
}

#[test]
fn requests_are_made_of_their_command_alone() {
    let request: CargoExecutionRequest =
        parse_simple_cargo_command("cargo check --message-format=json", "/w").unwrap();
    assert_eq!(request.cargo_args, ["check", "--message-format=json"]);
    let request: LogExecutionRequest = parse_simple_log_command("cat /abs/x.log", "/w").unwrap();
    assert_eq!(
        request.source,
        LogExecutionSource::File {
            path: "/abs/x.log".to_owned(),
            kind: LogInputKind::GenericText
        }
    );
}

#[test]
fn projections_are_replied_plain_or_encoded() {
    let outcome = || Outcome::Projection {
        text: "query Needle\n".to_owned(),
        exit_code: 3,
    };
    let plain = reply(Some(outcome()), false);
    assert_eq!(plain.text.as_deref(), Some("query Needle\n"));
    assert_eq!(plain.exit_code, 3);
    let encoded = reply(Some(outcome()), true);
    assert_eq!(encoded.text.as_deref(), Some("cXVlcnkgTmVlZGxlCg=="));
    let replay = Outcome::RawReplay {
        search: ExactSearch {
            identifier: "Needle".to_owned(),
        },
        reason: ReplayReason::RawParse,
        captured_exit_code: Some(0),
    };
    let replied = reply(Some(replay), true);
    assert_eq!(replied.text, None);
    assert_eq!(replied.exit_code, 75);
    let rejected = Outcome::Rejected {
        reason: RequestRejection::Missing,
    };
    assert_eq!(reply(Some(rejected), false).exit_code, 75);
    assert_eq!(reply(None, false).exit_code, 75);
}

#[test]
fn formats_of_two_words_are_seen() {
    assert!(parse_simple_cargo_command("cargo check --message-format human", "/w").is_none());
    assert!(parse_simple_cargo_command("cargo check --message-format=short", "/w").is_none());
    let request = parse_simple_cargo_command("cargo check --message-format json", "/w").unwrap();
    assert_eq!(
        request.cargo_args,
        ["check", "--message-format", "json", "--message-format=json"]
    );
    let request =
        parse_simple_cargo_command("cargo clippy -- --message-format human", "/w").unwrap();
    assert_eq!(
        request.cargo_args,
        ["clippy", "--message-format=json", "--", "--message-format", "human"]
    );
}

#[test]
fn commands_of_more_lines_are_left_alone() {
    for command in ["cargo test\necho leaked", "cargo test\r\necho leaked", "cargo\ncheck"] {
        assert!(parse_simple_cargo_command(command, "/w").is_none(), "{command}");
    }
    assert!(parse_simple_log_command("cat x.log\necho leaked", "/w").is_none());
    for command in ["cargo test\n", "cargo test\r\n", "\n cargo test"] {
        let request = parse_simple_cargo_command(command, "/w").unwrap();
        assert_eq!(request.cargo_args, ["test"]);
    }
    assert!(parse_simple_log_command("cargo nextest run\n", "/w").is_some());
}

#[test]
fn log_files_on_windows_are_meant_from_their_directory() {
    let request = parse_simple_log_command("Get-Content x.log", "C:\\w").unwrap();
    assert_eq!(
        request.source,
        LogExecutionSource::File {
            path: "C:\\w\\x.log".to_owned(),
            kind: LogInputKind::GenericText
        }
    );
}
