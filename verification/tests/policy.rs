use cabal_runtime::policy::bash::{is_builtin_destructive_command, parse_bash};
use cabal_runtime::policy::glob::glob_matches;
use cabal_runtime::policy::patch::{parse_patch, validate_lexical_path};
use cabal_runtime::policy::{
    check_policy_location, check_state_location, ensure_contained_path, evaluate, load_policy,
    paths_to_contain, receipt_file_name, receipt_for, receipts_to_remove,
    Decision, Evaluation, PolicyError, PolicyLoad, PolicyState, ReceiptKind, ToolInput,
    WireCommands, WireLimits, WirePaths, WirePolicy, WireRules, MAX_POLICY_BYTES,
    MAX_REASON_BYTES, MAX_RECEIPTS,
};

fn texts(items: &[&str]) -> Vec<String> {
    items.iter().map(|item| (*item).to_owned()).collect()
}

fn commands(items: &[&[&str]]) -> Vec<Vec<String>> {
    items.iter().map(|item| texts(item)).collect()
}

fn wire() -> WirePolicy {
    WirePolicy {
        version: 1,
        paths: Some(WirePaths {
            allow: texts(&["src/**", "docs/**", "internal/**", "generated/**"]),
            deny: texts(&["secrets/**"]),
            internal: texts(&["internal/**"]),
            generated: texts(&["generated/**"]),
        }),
        rules: Some(WireRules {
            internal: Some(Decision::Ask),
            generated: Some(Decision::Deny),
        }),
        limits: Some(WireLimits {
            max_patch_bytes: Some(1024),
            max_files: Some(2),
            max_line_changes: Some(4),
        }),
        commands: Some(WireCommands {
            allow: commands(&[&["cargo", "test", "-p", "cabal-change-policy"]]),
            ask: commands(&[&["cargo", "fmt"]]),
            deny: commands(&[&["git", "reset", "--hard"]]),
            destructive: commands(&[&["rm", "-rf", "target"]]),
        }),
    }
}

fn policy() -> Result<PolicyLoad, PolicyError> {
    load_policy(Some("policy".as_bytes()), Ok(wire()))
}

fn patch_result(patch: &str) -> Evaluation {
    evaluate(&policy(), ToolInput::ApplyPatch(patch), &Vec::new())
}

fn bash_result(command: &str) -> Evaluation {
    evaluate(&policy(), ToolInput::Bash(command), &Vec::new())
}

#[test]
fn absent_policy_is_disabled_without_a_decision() {
    let load = load_policy(None, Err(String::new()));
    let result = evaluate(&load, ToolInput::Bash("cargo test"), &Vec::new());
    assert_eq!(result.state, PolicyState::Disabled);
    assert_eq!(result.decision, None);
    assert_eq!(result.code, "policy_disabled");
}

#[test]
fn active_policy_allows_patch_and_exact_command() {
    let patch = "*** Begin Patch\n*** Update File: src/lib.rs\n@@\n-old\n+new\n*** End Patch\n";
    assert_eq!(patch_result(patch).decision, Some(Decision::Allow));
    assert_eq!(
        bash_result("cargo test -p cabal-change-policy").decision,
        Some(Decision::Allow)
    );
}

#[test]
fn apply_patch_move_target_is_checked_and_trailing_data_is_rejected() {
    let denied_move = "*** Begin Patch\n*** Update File: src/lib.rs\n*** Move to: secrets/lib.rs\n@@\n-old\n+new\n*** End Patch\n";
    assert_eq!(patch_result(denied_move).code, "path_denied");

    let trailing =
        "*** Begin Patch\n*** Update File: src/lib.rs\n@@\n-old\n+new\n*** End Patch\nignored";
    assert_eq!(patch_result(trailing).code, "malformed_patch");
}

#[test]
fn indented_headers_and_environment_id_follow_codex_patch_grammar() {
    let indented = "*** Begin Patch\n*** Add File: src/ok.txt\n+ok\n *** Add File: secrets/key.txt\n+secret\n*** End Patch\n";
    assert_eq!(patch_result(indented).code, "path_denied");

    let environment = " *** Begin Patch\n*** Environment ID: remote\n*** Add File: src/lib.rs\n+pub fn value() {}\n *** End Patch\n";
    assert_eq!(patch_result(environment).decision, Some(Decision::Allow));
}

#[test]
fn update_context_that_looks_like_a_header_is_not_an_operation() {
    let patch = "*** Begin Patch\n*** Update File: src/lib.rs\n@@\n *** Add File: secrets/key\n-old\n+new\n*** End Patch\n";
    assert_eq!(patch_result(patch).decision, Some(Decision::Allow));
}

#[test]
fn path_rules_internal_generated_and_limits_are_enforced() {
    let patch = |path: &str| {
        format!("*** Begin Patch\n*** Update File: {path}\n@@\n-old\n+new\n*** End Patch\n")
    };
    assert_eq!(
        patch_result(&patch("internal/a.rs")).decision,
        Some(Decision::Ask)
    );
    assert_eq!(
        patch_result(&patch("generated/a.rs")).decision,
        Some(Decision::Deny)
    );
    assert_eq!(patch_result(&patch("secrets/key")).code, "path_denied");
    let large =
        "*** Begin Patch\n*** Update File: src/a.rs\n@@\n-a\n+b\n-c\n+d\n-e\n+f\n*** End Patch\n";
    assert_eq!(patch_result(large).code, "too_many_line_changes");
}

#[test]
fn malformed_patch_cannot_hide_a_path_or_bypass_limits() {
    let hidden = "*** Begin Patch\n*** Update File: src/a.rs\n*** Update File: secrets/key\n@@\n-x\n+y\n*** End Patch\n";
    assert_eq!(patch_result(hidden).code, "path_denied");
    let malformed = "*** Begin Patch\n*** Update File: src/a.rs\n@@\n-x\n+y\n";
    assert_eq!(patch_result(malformed).code, "malformed_patch");
    let unsupported = "random non-patch text";
    assert_eq!(patch_result(unsupported).code, "malformed_patch");
}

#[test]
fn traversal_and_windows_linux_lexical_forms_are_rejected() {
    for path in [
        "../outside",
        "/etc/passwd",
        "C:\\Windows\\win.ini",
        "\\\\server\\share\\file",
        "src/../secrets/key",
    ] {
        let patch =
            format!("*** Begin Patch\n*** Update File: {path}\n@@\n-old\n+new\n*** End Patch\n");
        assert_eq!(patch_result(&patch).code, "invalid_path", "{path}");
    }
    let windows =
        "*** Begin Patch\n*** Update File: src\\portable.rs\n@@\n-old\n+new\n*** End Patch\n";
    assert_eq!(patch_result(windows).decision, Some(Decision::Allow));
}

#[test]
fn symlinked_existing_ancestor_cannot_escape_workspace() {
    let patch =
        "*** Begin Patch\n*** Update File: src/link/escape.rs\n@@\n-old\n+new\n*** End Patch\n";
    assert_eq!(paths_to_contain(patch), ["src/link/escape.rs"]);
    let escaping = texts(&["src/link/escape.rs"]);
    assert_eq!(
        evaluate(&policy(), ToolInput::ApplyPatch(patch), &escaping).code,
        "path_outside_workspace"
    );
}

#[test]
fn bash_grammar_handles_safe_quotes_but_rejects_shell_bypass_syntax() {
    assert_eq!(
        bash_result("cargo 'test' -p \"cabal-change-policy\"").decision,
        Some(Decision::Allow)
    );
    for command in [
        "cargo test; rm -rf target",
        "cargo $(echo test)",
        "cargo test > out",
        "cargo test && rm -rf target",
    ] {
        let result = bash_result(command);
        assert_eq!(result.decision, None, "{command}");
    }
    assert_eq!(bash_result("cargo fmt").decision, Some(Decision::Ask));
    assert_eq!(bash_result("cargo check").decision, Some(Decision::Allow));
    assert_eq!(bash_result("rm -rf target").decision, Some(Decision::Deny));
    assert_eq!(
        bash_result("rm -rf \"tar${EMPTY}get\"").decision,
        Some(Decision::Deny)
    );
    assert_eq!(
        bash_result("custom-delete \"tar${EMPTY}get\"").decision,
        None
    );
}

#[test]
fn invalid_active_policy_fails_closed_with_bounded_safe_output() {
    let load = load_policy(
        Some("{\"version\":99}".as_bytes()),
        Ok(WirePolicy {
            version: 99,
            paths: None,
            rules: None,
            limits: None,
            commands: None,
        }),
    );
    let result = evaluate(&load, ToolInput::ApplyPatch("not a patch"), &Vec::new());
    assert_eq!(result.state, PolicyState::Active);
    assert_eq!(result.decision, Some(Decision::Deny));
    assert_eq!(result.code, "invalid_policy");
    assert!(result.reason.len() <= MAX_REASON_BYTES);
    assert_eq!(
        evaluate(&load, ToolInput::Bash("cargo test"), &Vec::new()).decision,
        None
    );
    assert_eq!(
        evaluate(&load, ToolInput::Bash("git reset --hard"), &Vec::new()).decision,
        Some(Decision::Deny)
    );
    let Err(error) = load else {
        panic!("expected an error");
    };
    assert_eq!(
        error,
        PolicyError::UnsupportedPolicy("version 99".to_owned())
    );
}

#[test]
fn receipt_is_only_available_for_active_policy_and_updates_atomically() {
    let command = "cargo test -p cabal-change-policy";
    let result = bash_result(command);
    let receipt = receipt_for(&result, ToolInput::Bash(command), 1_700_000_000_123).unwrap();
    assert_eq!(receipt.input_kind, ReceiptKind::Bash);
    assert_eq!(receipt.decision, Some(Decision::Allow));
    assert_eq!(receipt.created_unix_ms, 1_700_000_000_123);
    assert_eq!(Some(receipt.policy_digest.clone()), result.policy_digest);
    assert_eq!(receipt.input_digest.len(), 64);
    assert!(receipt_file_name(&receipt, 5).ends_with(".json"));
    let disabled = evaluate(
        &load_policy(None, Err(String::new())),
        ToolInput::Bash(command),
        &Vec::new(),
    );
    assert!(receipt_for(&disabled, ToolInput::Bash(command), 1).is_none());
}

#[test]
fn oldest_receipts_make_room() {
    let times: Vec<u128> = (0..(MAX_RECEIPTS as u128 + 2)).rev().collect();
    let removed = receipts_to_remove(&times);
    assert!(removed.contains(&(times.len() - 1)));
    assert!(removed.contains(&(times.len() - 2)));
    assert!(!removed.contains(&0));
    assert!(receipts_to_remove(&vec![3, 1, 2]).is_empty());
}

#[test]
fn policies_are_refused_for_their_size_and_their_form() {
    let large = vec![32u8; MAX_POLICY_BYTES + 1];
    assert!(matches!(
        load_policy(Some(&large), Ok(wire())),
        Err(PolicyError::PolicyTooLarge)
    ));
    let Err(error) = load_policy(Some("{".as_bytes()), Err("EOF".to_owned())) else {
        panic!("expected an error");
    };
    assert_eq!(error, PolicyError::MalformedPolicy("EOF".to_owned()));
    let mut many = wire();
    many.commands = Some(WireCommands {
        allow: Vec::new(),
        ask: Vec::new(),
        deny: vec![Vec::new()],
        destructive: Vec::new(),
    });
    assert!(load_policy(Some("x".as_bytes()), Ok(many)).is_err());
}

#[test]
fn patterns_and_words_are_read_exactly() {
    let chars = |text: &str| -> Vec<char> { text.chars().collect() };
    assert!(glob_matches(&chars("src/**"), &chars("src/a/b.rs")));
    assert!(glob_matches(&chars("src/*.rs"), &chars("src/a.rs")));
    assert!(!glob_matches(&chars("src/*.rs"), &chars("src/a/b.rs")));
    assert_eq!(
        parse_bash("a 'b c' \"d\"").unwrap(),
        ["a", "b c", "d"]
    );
    assert!(parse_bash("a 'b").is_err());
    assert!(is_builtin_destructive_command("git clean -fd"));
    assert!(!is_builtin_destructive_command("git status"));
    assert!(validate_lexical_path("src/a.rs"));
    assert!(!validate_lexical_path("src/../a.rs"));
}

#[test]
fn unified_diffs_are_patches_too() {
    let parsed =
        parse_patch("--- a/src/x.rs\n+++ b/src/x.rs\n@@ -1 +1 @@\n-old\n+new\n").unwrap();
    assert_eq!(parsed.paths, ["src/x.rs"]);
    assert_eq!(parsed.line_changes, 2);
}

#[test]
fn places_outside_the_workspace_are_refused() {
    assert_eq!(check_policy_location(Some("/w/.cabal"), "/w"), Ok(()));
    assert_eq!(
        check_policy_location(Some("/elsewhere"), "/w"),
        Err(PolicyError::PolicyOutsideWorkspace)
    );
    assert_eq!(
        check_policy_location(None, "/w"),
        Err(PolicyError::PolicyOutsideWorkspace)
    );
    assert_eq!(ensure_contained_path("src/a.rs", Some("/w/src"), "/w"), Ok(()));
    assert_eq!(
        ensure_contained_path("link/a.rs", Some("/elsewhere"), "/w"),
        Err(PolicyError::OutsideWorkspace("link/a.rs".to_owned()))
    );
    assert_eq!(check_state_location("/w/.cabal/state", "/w/.cabal"), Ok(()));
    assert_eq!(
        check_state_location("/elsewhere", "/w/.cabal"),
        Err(PolicyError::StateOutsideWorkspace)
    );
}
