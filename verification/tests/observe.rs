use cabal_runtime::hook::projections::project_observation;
use cabal_runtime::hook::ModelProjection;
use cabal_runtime::json::ToJson;
use cabal_runtime::observe::{
    artifact_path, artifact_write, normalize_bytes, parse_cargo_test_text, InputKind, NormalizeError,
    ObservationPack, SourceLocation, TestSummary, Verdict,
};

fn normalized(kind: InputKind, raw: &str) -> ObservationPack {
    normalize_bytes(kind, raw.as_bytes()).unwrap()
}

const COMPILER_ERROR: &str = r#"{"reason":"compiler-message","message":{"level":"error","message":"use of moved value: `branches`","code":{"code":"E0382"},"spans":[{"file_name":"src/query.rs","line_start":184,"column_start":9,"is_primary":true},{"file_name":"src/query.rs","line_start":171,"column_start":5,"is_primary":false}]}}
{"reason":"build-finished","success":false}
"#;

#[test]
fn normalizes_structured_compiler_error_without_losing_locations() {
    let pack = normalized(InputKind::CargoJson, COMPILER_ERROR);

    assert_eq!(pack.verdict, Verdict::Failed);
    assert_eq!(pack.diagnostics.len(), 1);
    assert_eq!(pack.diagnostics[0].code.as_deref(), Some("E0382"));
    assert_eq!(
        pack.diagnostics[0].primary_location,
        Some(SourceLocation {
            file: "src/query.rs".to_owned(),
            line: 184,
            column: 9,
        })
    );
    assert_eq!(pack.diagnostics[0].related_locations.len(), 1);
    assert_eq!(
        artifact_path("/artifacts", &pack.raw_artifact.sha256),
        format!("/artifacts/{}/raw-output", pack.raw_artifact.sha256)
    );
}

#[test]
fn normalizes_successful_structured_build() {
    let raw = r#"{"reason":"compiler-artifact","package_id":"cabal 0.1.0"}
{"reason":"build-finished","success":true}
"#;
    let pack = normalized(InputKind::CargoJson, raw);

    assert_eq!(pack.verdict, Verdict::Passed);
    assert!(pack.diagnostics.is_empty());
    assert_eq!(pack.omitted_sections.count, 2);
}

#[test]
fn normalizes_failed_test_with_panic_location() {
    let raw = "running 2 tests\n\ntest parser::keeps_location ... ok\ntest parser::rejects_bad_log ... FAILED\n\n---- parser::rejects_bad_log stdout ----\n\nthread 'parser::rejects_bad_log' panicked at src/parser.rs:41:17:\nexpected structured output\nnote: run with `RUST_BACKTRACE=1` environment variable to display a backtrace\n\nfailures:\n    parser::rejects_bad_log\n\ntest result: FAILED. 1 passed; 1 failed; 0 ignored; 0 measured; 0 filtered out; finished in 0.00s\n";
    let pack = normalized(InputKind::CargoTestText, raw);

    assert_eq!(pack.verdict, Verdict::Failed);
    assert_eq!(pack.tests.unwrap().failed, Some(1));
    assert_eq!(pack.diagnostics.len(), 1);
    assert_eq!(
        pack.diagnostics[0].primary_location,
        Some(SourceLocation {
            file: "src/parser.rs".to_owned(),
            line: 41,
            column: 17,
        })
    );
}

#[test]
fn rejects_unknown_input_kind() {
    assert!(matches!(
        InputKind::parse("junit"),
        Err(NormalizeError::UnsupportedInputKind(_))
    ));
}

#[test]
fn reads_known_input_kinds() {
    assert_eq!(InputKind::parse("cargo-json"), Ok(InputKind::CargoJson));
    assert_eq!(
        InputKind::parse("cargo-test-text"),
        Ok(InputKind::CargoTestText)
    );
}

#[test]
fn retains_a_failed_test_even_when_no_panic_text_is_present() {
    let raw = "running 1 test\ntest parser::returns_error ... FAILED\n\ntest result: FAILED. 0 passed; 1 failed; 0 ignored; 0 measured; 0 filtered out; finished in 0.00s\n";
    let pack = normalized(InputKind::CargoTestText, raw);

    assert_eq!(pack.verdict, Verdict::Failed);
    assert_eq!(pack.diagnostics.len(), 1);
    assert_eq!(pack.diagnostics[0].kind, "test_failure");
    assert_eq!(pack.diagnostics[0].message, "parser::returns_error");
}

#[test]
fn aggregates_multiple_cargo_test_suite_summaries() {
    let raw = "test result: ok. 2 passed; 0 failed; 0 ignored; 0 measured; 0 filtered out; finished in 0.00s\n\ntest result: ok. 0 passed; 0 failed; 0 ignored; 0 measured; 0 filtered out; finished in 0.00s\n";
    let pack = normalized(InputKind::CargoTestText, raw);

    assert_eq!(pack.verdict, Verdict::Passed);
    assert_eq!(pack.tests.unwrap().passed, Some(2));
}

#[test]
fn structured_error_fixture_preserves_all_actionable_fields() {
    let pack = normalized(InputKind::CargoJson, COMPILER_ERROR);
    let diagnostic = pack.diagnostics.first().unwrap();

    assert_eq!(pack.verdict, Verdict::Failed);
    assert_eq!(diagnostic.kind, "error");
    assert_eq!(diagnostic.code.as_deref(), Some("E0382"));
    assert_eq!(diagnostic.message, "use of moved value: `branches`");
    assert_eq!(
        diagnostic.primary_location.as_ref().unwrap().file,
        "src/query.rs"
    );
    assert_eq!(diagnostic.primary_location.as_ref().unwrap().line, 184);
    assert_eq!(diagnostic.related_locations.len(), 1);
}

#[test]
fn successful_build_fixture_is_not_reported_as_a_failure() {
    let pack = normalized(
        InputKind::CargoJson,
        "{\"reason\":\"compiler-artifact\"}\n{\"reason\":\"build-finished\",\"success\":true}\n",
    );

    assert_eq!(pack.verdict, Verdict::Passed);
    assert!(pack.diagnostics.is_empty());
}

#[test]
fn test_failure_fixture_retains_failure_count_and_location() {
    let raw = "running 1 test\ntest parser::rejects ... FAILED\n\n---- parser::rejects stdout ----\n\nthread 'parser::rejects' panicked at src/parser.rs:41:17:\nexpected structured output\n\ntest result: FAILED. 0 passed; 1 failed; 0 ignored; 0 measured; 0 filtered out; finished in 0.00s\n";
    let pack = normalized(InputKind::CargoTestText, raw);
    let diagnostic = pack.diagnostics.first().unwrap();

    assert_eq!(pack.verdict, Verdict::Failed);
    assert_eq!(pack.tests.as_ref().unwrap().failed, Some(1));
    assert_eq!(diagnostic.kind, "test_panic");
    assert_eq!(
        diagnostic.primary_location.as_ref().unwrap().file,
        "src/parser.rs"
    );
    assert_eq!(diagnostic.primary_location.as_ref().unwrap().line, 41);
}

#[test]
fn noisy_build_fixture_has_a_smaller_model_projection() {
    let mut raw = String::new();
    for index in 0..40 {
        raw.push_str(&format!(
            "{{\"reason\":\"compiler-artifact\",\"package_id\":\"noise {index}\",\"filenames\":[\"target/debug/deps/libnoise-{index}.rlib\"]}}\n"
        ));
    }
    raw.push_str("{\"reason\":\"compiler-message\",\"message\":{\"level\":\"error\",\"message\":\"cannot borrow\",\"code\":{\"code\":\"E0596\"},\"spans\":[]}}\n");
    raw.push_str("{\"reason\":\"build-finished\",\"success\":false}\n");
    let pack = normalized(InputKind::CargoJson, &raw);
    let projection = ModelProjection::Build(project_observation(&pack))
        .to_json()
        .to_text();

    assert_eq!(pack.verdict, Verdict::Failed);
    assert_eq!(pack.diagnostics.len(), 1);
    assert_eq!(pack.diagnostics[0].code.as_deref(), Some("E0596"));
    assert!(projection.len() < raw.len());
}

#[test]
fn lines_that_are_no_json_are_refused_with_their_reason() {
    let error = normalize_bytes(InputKind::CargoJson, "{oops\n".as_bytes()).unwrap_err();
    assert!(matches!(error, NormalizeError::Json(_)));
    assert!(error.message().len() > 0);
}

#[test]
fn counts_that_do_not_fit_are_refused_in_observations() {
    let raw = "test result: ok. 18446744073709551615 passed; 0 failed; 0 ignored\ntest result: ok. 1 passed; 0 failed; 0 ignored\n";
    assert_eq!(
        normalize_bytes(InputKind::CargoTestText, raw.as_bytes()),
        Err(NormalizeError::CountOverflow)
    );
}

#[test]
fn an_unfinished_build_is_unknown() {
    let pack = normalized(InputKind::CargoJson, "{\"reason\":\"compiler-artifact\"}\n");
    assert_eq!(pack.verdict, Verdict::Unknown);
    let parsed = parse_cargo_test_text("nothing to see\n").unwrap();
    assert_eq!(parsed.verdict, Verdict::Unknown);
    assert_eq!(parsed.tests, None::<TestSummary>);
}

#[test]
fn raw_output_is_kept_where_the_pack_names_it() {
    let raw = "{\"reason\":\"build-finished\",\"success\":true}\n".as_bytes();
    let write = artifact_write(raw, "/artifacts");
    let pack = normalize_bytes(InputKind::CargoJson, raw).unwrap();
    assert_eq!(write.raw, raw);
    assert_eq!(
        write.path,
        artifact_path("/artifacts", &pack.raw_artifact.sha256)
    );
    assert_eq!(write.path, format!("{}/raw-output", write.directory));
    assert_eq!(pack.raw_artifact.bytes, raw.len() as u64);
}
