use cabal_runtime::digest::sha256_text;
use cabal_runtime::log::{
    normalize_bytes, read_generic, DiagnosticCategory, InputKind, LogPack, NormalizeError,
    TestCounts, Verdict,
};

fn normalized(kind: InputKind, raw: &str, success: bool) -> LogPack {
    normalize_bytes(kind, raw.as_bytes(), success, "/artifacts").unwrap()
}

fn refused(kind: InputKind, raw: &str) -> NormalizeError {
    normalize_bytes(kind, raw.as_bytes(), true, "/artifacts").unwrap_err()
}

#[test]
fn junit_aggregates_suites_and_locations() {
    let raw = r#"<testsuites>
  <testsuite name="integration">
    <testcase name="fails"><failure message="assertion failed" file="src/lib.rs" line="9"/></testcase>
    <testcase name="passes"/>
  </testsuite>
  <testsuite name="unit">
    <testcase name="skips"><skipped/></testcase>
    <testcase name="errors"><error>boom</error></testcase>
  </testsuite>
</testsuites>"#;
    let p = normalized(InputKind::JunitXml, raw, true);
    assert_eq!(p.verdict, Verdict::Failed);
    assert_eq!(
        p.counts,
        TestCounts {
            total: 4,
            passed: 1,
            failed: 1,
            skipped: 1,
            errors: 1
        }
    );
    assert_eq!(p.diagnostics[0].file.as_deref(), Some("src/lib.rs"));
    assert_eq!(p.diagnostics[0].suite.as_deref(), Some("integration"));
    assert_eq!(p.diagnostics[0].line, Some(9));
    assert_eq!(p.diagnostics[0].column, None);
    assert_eq!(p.diagnostics[0].test.as_deref(), Some("fails"));
    assert_eq!(p.diagnostics[1].category, DiagnosticCategory::Error);
    assert_eq!(p.diagnostics[1].suite.as_deref(), Some("unit"));
    assert_eq!(p.diagnostics[1].message, "boom");
    assert!(p.complete);
}

#[test]
fn junit_malformed_is_an_error() {
    assert!(matches!(
        refused(InputKind::JunitXml, "<testsuite>"),
        NormalizeError::JunitXml(_)
    ));
    assert!(matches!(
        refused(InputKind::JunitXml, "<not-junit/>"),
        NormalizeError::JunitXml(_)
    ));
}

#[test]
fn junit_decodes_attribute_entities() {
    let raw = r#"<testsuite name="a &amp; b"><testcase name="x"><failure message="left &lt; right"/></testcase></testsuite>"#;
    let p = normalized(InputKind::JunitXml, raw, true);
    assert_eq!(p.diagnostics[0].suite.as_deref(), Some("a & b"));
    assert_eq!(p.diagnostics[0].message, "left < right");
}

#[test]
fn junit_text_stands_in_for_a_missing_message() {
    let raw = r#"<testsuite><testcase name="x"><failure>left &lt; right</failure></testcase></testsuite>"#;
    let p = normalized(InputKind::JunitXml, raw, true);
    assert_eq!(p.diagnostics[0].message, "left < right");
    assert_eq!(p.diagnostics[0].suite, None);
}

#[test]
fn junit_messages_say_what_is_wrong() {
    assert_eq!(
        refused(InputKind::JunitXml, "<testsuite>").message(),
        "invalid JUnit XML: unexpected end of file"
    );
    assert_eq!(
        refused(InputKind::JunitXml, "<not-junit/>").message(),
        "invalid JUnit XML: expected a testsuite element"
    );
}

#[test]
fn sarif_reads_primary_and_related_locations() {
    let raw = r#"{
  "version": "2.1.0",
  "runs": [{
    "results": [
      {
        "ruleId": "R1", "level": "error", "message": {"text": "first"},
        "locations": [{"physicalLocation": {
          "artifactLocation": {"uri": "src/main.rs"}, "region": {"startLine": 8, "startColumn": 3}}}],
        "relatedLocations": [{"physicalLocation": {
          "artifactLocation": {"uri": "src/lib.rs"}, "region": {"startLine": 2}}}]
      },
      {"message": {"markdown": "second"}}
    ]
  }]
}"#;
    let p = normalized(InputKind::SarifJson, raw, true);
    assert_eq!(p.verdict, Verdict::Failed);
    assert_eq!(p.diagnostics.len(), 2);
    assert_eq!(p.diagnostics[0].file.as_deref(), Some("src/main.rs"));
    assert_eq!(p.diagnostics[0].line, Some(8));
    assert_eq!(p.diagnostics[0].related_locations.len(), 1);
    assert_eq!(
        p.diagnostics[0].related_locations[0].file.as_deref(),
        Some("src/lib.rs")
    );
    assert_eq!(p.diagnostics[0].rule_id.as_deref(), Some("R1"));
    assert_eq!(p.diagnostics[1].message, "second");
    assert_eq!(p.diagnostics[1].file, None);
    assert_eq!(p.counts.failed, 1);
}

#[test]
fn sarif_invalid_json_and_version_fail() {
    assert!(matches!(
        refused(InputKind::SarifJson, "{"),
        NormalizeError::SarifJson(_)
    ));
    assert!(matches!(
        refused(InputKind::SarifJson, r#"{"version":"2.0.0"}"#),
        NormalizeError::InvalidSarif(_)
    ));
    assert!(matches!(
        refused(InputKind::SarifJson, r#"{"version":"2.1.0"}"#),
        NormalizeError::InvalidSarif(_)
    ));
    assert!(matches!(
        refused(
            InputKind::SarifJson,
            r#"{"version":"2.1.0","runs":[{"results":[{"level":"warning"}]}]}"#
        ),
        NormalizeError::InvalidSarif(_)
    ));
}

#[test]
fn sarif_verdict_follows_levels_and_results() {
    let quiet = r#"{"version":"2.1.0","runs":[{"results":[{"message":{"text":"note"}}]}]}"#;
    assert_eq!(
        normalized(InputKind::SarifJson, quiet, true).verdict,
        Verdict::Passed
    );
    let none = normalized(InputKind::SarifJson, r#"{"version":"2.1.0","runs":[]}"#, true);
    assert_eq!(none.verdict, Verdict::Unknown);
    assert!(!none.complete);
}

#[test]
fn generic_is_bounded_and_tracks_omission() {
    let raw = (0..40)
        .map(|_| format!("ERROR {}\n", "x".repeat(600)))
        .collect::<String>();
    let p = normalized(InputKind::GenericText, &raw, true);
    assert_eq!(p.diagnostics.len(), 32);
    assert_eq!(p.omitted.as_ref().unwrap().count, 8);
    assert!(p.diagnostics[0].message.chars().count() <= 515);
    assert!(p.diagnostics[0].message.ends_with("..."));
}

#[test]
fn generic_extracts_actionable_location_without_log_prefix() {
    let p = normalized(
        InputKind::GenericText,
        "ERROR compilation failed at src/main.rs:44:2\n",
        false,
    );
    assert_eq!(p.diagnostics[0].file.as_deref(), Some("src/main.rs"));
    assert_eq!(p.diagnostics[0].line, Some(44));
    assert_eq!(p.diagnostics[0].column, Some(2));
}

#[test]
fn generic_reads_broken_bytes_and_sorts_categories() {
    let mut raw = "panic: ".as_bytes().to_vec();
    raw.push(0xff);
    raw.extend_from_slice("\nfailed\nfine\n".as_bytes());
    let p = normalize_bytes(InputKind::GenericText, &raw, true, "/artifacts").unwrap();
    assert_eq!(p.diagnostics.len(), 2);
    assert_eq!(p.diagnostics[0].category, DiagnosticCategory::Panic);
    assert_eq!(p.diagnostics[0].message, "panic: \u{fffd}");
    assert_eq!(p.diagnostics[1].category, DiagnosticCategory::Failure);
    assert!(!p.complete);
    let quiet = read_generic("all is well\n");
    assert_eq!(quiet.verdict, Verdict::Unknown);
}

#[test]
fn nextest_preserves_pass_fail_skip_and_location() {
    let failing = "        PASS [   0.004s] sample tests::works\n        FAIL [   0.006s] sample tests::breaks\nthread 'tests::breaks' panicked at src/lib.rs:12:9:\nassertion failed\n     Summary [   0.010s] 2 tests run: 1 passed, 1 failed, 0 skipped\n";
    let p = normalized(InputKind::NextestText, failing, true);
    assert_eq!(p.verdict, Verdict::Failed);
    assert_eq!(p.counts.failed, 1);
    assert!(p.diagnostics.iter().any(|d| {
        d.category == DiagnosticCategory::Panic
            && d.file.as_deref() == Some("src/lib.rs")
            && d.line == Some(12)
    }));
    assert_eq!(
        p.diagnostics[0].test.as_deref(),
        Some("sample tests::breaks")
    );
    let passing = "        PASS [   0.004s] sample tests::works\n        SKIP [         ] sample tests::later\n     Summary [   0.010s] 1 test run: 1 passed, 1 skipped\n";
    let p = normalized(InputKind::NextestText, passing, true);
    assert_eq!(p.verdict, Verdict::Passed);
    assert_eq!(p.counts.skipped, 1);
}

#[test]
fn nextest_contradictions_are_unknown_but_exit_failure_wins() {
    let raw = "PASS [0.1s] a\nSummary 1 tests run: 0 passed, 1 failed, 0 skipped\n";
    let p = normalized(InputKind::NextestText, raw, true);
    assert_eq!(p.verdict, Verdict::Unknown);
    assert!(!p.complete);
    let p = normalized(InputKind::NextestText, raw, false);
    assert_eq!(p.verdict, Verdict::Failed);
}

#[test]
fn nextest_counts_that_do_not_fit_are_refused() {
    let raw = "Summary 2 tests run: 18446744073709551615 passed, 1 failed\n";
    assert_eq!(
        refused(InputKind::NextestText, raw),
        NormalizeError::CountOverflow
    );
}

#[test]
fn raw_bytes_are_content_addressed_and_persisted() {
    let p = normalized(InputKind::GenericText, "hello", true);
    assert_eq!(
        p.raw_artifact().sha256,
        "2cf24dba5fb0a30e26e83b2ac5b9e29e1b161e5c1fa7425e73043362938b9824"
    );
    assert_eq!(p.raw_artifact().sha256.len(), 64);
    assert_eq!(p.raw_artifact().bytes, 5);
    assert_eq!(
        p.raw_artifact().path,
        format!("/artifacts/sha256/{}.raw", sha256_text("hello".as_bytes()))
    );
}

#[test]
fn every_closed_test_has_one_outcome() {
    let raw = "<testsuite><testcase name='a'/><testcase name='b'><failure/><error/></testcase>\
<testcase name='c'><skipped/></testcase><testcase name='d'><failure/></testcase></testsuite>";
    let p = normalize_bytes(InputKind::JunitXml, raw.as_bytes(), true, "/artifacts").unwrap();
    assert_eq!(p.counts.total, 4);
    assert_eq!(
        p.counts.passed + p.counts.failed + p.counts.skipped + p.counts.errors,
        p.counts.total
    );
    assert_eq!(p.counts.errors, 1);
}
