use cabal_runtime::causal_context::capture::{
    capture_replay_reason, keep_within_bound, watch_process, Capture, ReplayReason, Watch,
    EXECUTOR_TIMEOUT_SECONDS, MAX_RAW_SEARCH_BYTES,
};
use cabal_runtime::causal_context::gateway::{
    accept_request, can_remove, check_state_directory, consume_request, ensure_relative_path,
    inspect_frame, inspect_request, ConsumedRequest, FoundFile, Gateway, Inspection, Outcome, Preparation,
    PreparedRequest, RequestRejection, ResolvedPath,
};
use cabal_runtime::causal_context::lifecycle::{
    digest_id, frame_is_current, git_service_in_file, is_request_token, new_frame, new_request,
    parse_commit, random_token, read_git_head, token_of, CausalContextRequest, GatewayError,
    GitAnswer, GitHead, ObserverFrameLite, FRAME_TTL_SECONDS, MAX_PRIVATE_REQUEST_BYTES,
    MAX_STATE_BYTES, REQUEST_TTL_SECONDS,
};
use cabal_runtime::causal_context::records::{
    is_present, normalize_raw_relative_path, parse_raw_records, paths_to_look_up, render_projection,
    InternalContextPacketV1, ProjectionError, RawRecord, RecordKind, MAX_MODEL_PROJECTION_BYTES,
};
use cabal_runtime::causal_context::search::{parse_exact_search, ExactSearch};
use cabal_runtime::causal_context::upkeep::{
    check_usage, state_usage, CleanupReport, RawEntry, SerializedEntry, Stamped, StateEntry,
    VerifyEntry,
};
use cabal_runtime::json::ToJson;
use cabal_runtime::path::Platform;

const COMMIT: &str = "0123456789012345678901234567890123456789";

fn gateway() -> Gateway {
    Gateway::open(
        &Some(ResolvedPath {
            path: "/w".to_owned(),
            is_directory: true,
        }),
        &Some("/w/.git".to_owned()),
        &Some(ResolvedPath {
            path: "/w/.git".to_owned(),
            is_directory: true,
        }),
    )
    .unwrap()
}

fn head() -> GitHead {
    parse_commit(Some(COMMIT))
}

fn frame(now: u64) -> ObserverFrameLite {
    new_frame("session-1", Some("turn-1"), head(), now).unwrap()
}

fn request(identifier: &str, now: u64) -> CausalContextRequest {
    let session = digest_id("session-1").unwrap();
    new_request(&frame(now), &session, identifier, now)
}

fn capture(stdout: &str) -> Option<Capture> {
    Some(Capture {
        stdout: stdout.as_bytes().to_vec(),
        stderr: Vec::new(),
        exit_code: Some(0),
        overflowed: false,
        timed_out: false,
    })
}

fn executed(identifier: &str, head: &GitHead, stdout: &str, present: &[&str]) -> Outcome {
    let present = present.iter().map(|path| (*path).to_owned()).collect();
    gateway().execute_request(
        &"a".repeat(64),
        Some(10),
        Some(ConsumedRequest::Request(request(identifier, 10))),
        Some(true),
        head,
        &capture(stdout),
        &present,
    )
}

fn repeated() -> String {
    let mut raw = String::new();
    for line in 1..=60 {
        if line % 20 == 0 {
            raw.push_str(&format!(
                "./src/some/deep/directory/repeated.rs:{line}:pub struct CausalNeedle{line};\n"
            ));
        } else {
            raw.push_str(&format!(
                "./src/some/deep/directory/repeated.rs-{line}-    // line {line}\n"
            ));
        }
    }
    raw
}

#[test]
fn exact_parser_accepts_only_three_safe_identifier_forms() {
    for command in [
        "rg -n -C 8 -- Needle .",
        "rg -n -C 8 -- 'Needle_2' .",
        "rg -n -C 8 -- \"Needle_2\" .",
    ] {
        assert_eq!(
            parse_exact_search(command).unwrap().identifier(),
            if command.contains("Needle_2") {
                "Needle_2"
            } else {
                "Needle"
            }
        );
    }
    for command in [
        "rg -n -C 8 -- Needle . ",
        "rg -n -C 8 -- Needle src",
        "RG -n -C 8 -- Needle .",
        "rg -n -C 8 -- 'Needle\\' .",
        "rg -n -C 8 -- Needle.* .",
        "rg  -n -C 8 -- Needle .",
        "rg -n -C 8 -- Needle .\nwhoami",
    ] {
        assert!(parse_exact_search(command).is_none(), "{command}");
    }
}

#[test]
fn searches_are_written_back_as_commands() {
    let search = parse_exact_search("rg -n -C 8 -- 'Needle' .").unwrap();
    assert_eq!(search.command(), "rg -n -C 8 -- Needle .");
    assert_eq!(search.argv(), ["-n", "-C", "8", "--", "Needle", "."]);
}

#[test]
fn observer_frame_contains_only_lifecycle_fields_and_replaces_session_frame() {
    let gateway = gateway();
    let first = gateway
        .register_frame("session-1", Some("turn-1"), head(), 10, &Ok(0))
        .unwrap();
    let session = digest_id("session-1").unwrap();
    assert_eq!(first.path, gateway.frame_path(&session));
    assert_eq!(
        first.path,
        format!("/w/.git/cabal-runtime/causal-context/frames/{session}.json")
    );
    assert!(first.raw.contains("session_digest"));
    assert!(first.raw.contains("turn_digest"));
    assert!(!first.raw.contains("session-1"));
    assert!(!first.raw.contains("prompt"));
    assert!(!first.raw.contains(gateway.workspace()));
    let second = gateway
        .register_frame("session-1", Some("turn-2"), head(), 10, &Ok(0))
        .unwrap();
    assert_eq!(second.path, first.path);
    assert_ne!(first.raw, second.raw);
    assert!(!second.raw.contains("turn-2"));
    assert_eq!(
        first.raw,
        format!(
            "{{\"version\":1,\"session_digest\":\"{session}\",\"turn_digest\":\"{}\",\"git_head\":{{\"status\":\"commit\",\"value\":\"{COMMIT}\"}},\"registered_at\":10,\"expires_at\":{}}}",
            digest_id("turn-1").unwrap(),
            10 + FRAME_TTL_SECONDS
        )
    );
}

#[test]
fn request_is_csprng_shaped_bound_and_consumed_once() {
    let gateway = gateway();
    let preparation = gateway.prepare_request(
        "session-1",
        Some("/w"),
        "rg -n -C 8 -- Needle .",
        &Some(frame(10)),
        &head(),
        10,
        &Ok(0),
    );
    let Preparation::Create { raw, search } = preparation else {
        panic!("expected a request");
    };
    assert!(raw.contains("\"identifier\":\"Needle\""));
    let prepared = PreparedRequest {
        token: random_token().unwrap(),
        search,
    };
    assert!(is_request_token(prepared.token()));
    assert_eq!(prepared.search().identifier(), "Needle");
    assert_ne!(random_token().unwrap(), random_token().unwrap());
    assert_eq!(
        gateway.request_path(prepared.token()),
        format!(
            "/w/.git/cabal-runtime/causal-context/requests/{}.json",
            prepared.token()
        )
    );
    let first = executed("Needle", &head(), "./a.rs:1:Needle\n", &["a.rs"]);
    assert!(matches!(
        first,
        Outcome::RawReplay { .. } | Outcome::Projection { .. }
    ));
    assert_eq!(inspect_request(None), Inspection::Missing);
    let consumed = consume_request(Inspection::Missing, 0, None);
    assert!(matches!(
        accept_request(prepared.token(), Some(10), Some(consumed)),
        Err(Outcome::Rejected {
            reason: RequestRejection::Missing
        })
    ));
}

#[test]
fn projection_is_lossless_grouped_and_strictly_smaller() {
    let raw = repeated();
    let present = ["src/some/deep/directory/repeated.rs"];
    let outcome = executed("CausalNeedle", &head(), &raw, &present);
    let Outcome::Projection { text, exit_code } = outcome else {
        panic!("expected grouped projection");
    };
    assert_eq!(exit_code, 0);
    assert!(text.starts_with("query CausalNeedle\n"));
    assert!(text.len() < raw.len());
    let present = present.iter().map(|path| (*path).to_owned()).collect();
    let mut expected = parse_raw_records(raw.as_bytes(), &present)
        .unwrap()
        .into_iter()
        .map(|record| (record.display_path, record.line, record.kind, record.bytes))
        .collect::<Vec<_>>();
    let mut actual = Vec::new();
    let mut current_path = None;
    for line in text.lines().skip(1) {
        if let Some(path) = line
            .strip_suffix(':')
            .filter(|line| !line.starts_with("  "))
        {
            current_path = Some(path.to_owned());
            continue;
        }
        let record = line.strip_prefix("  ").expect("grouped record");
        let delimiter = record.find([':', '-']).expect("line number delimiter");
        let kind = if record[delimiter..].starts_with(':') {
            RecordKind::Match
        } else {
            RecordKind::Context
        };
        actual.push((
            current_path.clone().expect("path header"),
            record[..delimiter].parse::<u64>().unwrap(),
            kind,
            record.as_bytes()[delimiter + 1..].to_vec(),
        ));
    }
    expected.sort_by_key(|(path, line, kind, bytes)| {
        (
            path.clone(),
            *line,
            *kind == RecordKind::Match,
            bytes.clone(),
        )
    });
    actual.sort_by_key(|(path, line, kind, bytes)| {
        (
            path.clone(),
            *line,
            *kind == RecordKind::Match,
            bytes.clone(),
        )
    });
    assert_eq!(actual, expected);
    assert_eq!(actual.len(), 60);
    assert!(!text.contains("cabal-runtime"));
}

#[test]
fn projection_rejects_nul_bytes_required_by_posix_shell_wire() {
    let packet = InternalContextPacketV1 {
        query: "Needle".to_owned(),
        records: vec![RawRecord {
            display_path: "src/lib.rs".to_owned(),
            line: 1,
            kind: RecordKind::Match,
            bytes: "pub struct Needle;\0".as_bytes().to_vec(),
        }],
        raw_bytes: 32,
    };
    assert!(matches!(
        render_projection(&packet),
        Err(ProjectionError::Invalid)
    ));
}

#[test]
fn small_raw_result_replays_and_preserves_rg_status() {
    let raw = "./src/small.rs:1:pub struct TinyNeedle;\n";
    assert!(matches!(
        executed("TinyNeedle", &head(), raw, &["src/small.rs"]),
        Outcome::RawReplay {
            reason: ReplayReason::ProjectionNotSmaller,
            captured_exit_code: Some(0),
            ..
        }
    ));
}

#[test]
fn projection_uses_only_the_captured_record_bytes() {
    let packet = InternalContextPacketV1 {
        query: "CapturedNeedle".to_owned(),
        records: vec![RawRecord {
            display_path: "src/captured.rs".to_owned(),
            line: 7,
            kind: RecordKind::Match,
            bytes: "pub struct CapturedNeedle;".as_bytes().to_vec(),
        }],
        raw_bytes: 100,
    };
    let text = render_projection(&packet).unwrap();
    assert!(text.contains("pub struct CapturedNeedle;"));
    assert!(!text.contains("DifferentNeedle"));
    assert_eq!(
        text,
        "query CapturedNeedle\nsrc/captured.rs:\n  7:pub struct CapturedNeedle;\n"
    );
}

#[test]
fn projections_over_their_bound_are_refused() {
    let packet = InternalContextPacketV1 {
        query: "Needle".to_owned(),
        records: vec![RawRecord {
            display_path: "src/lib.rs".to_owned(),
            line: 1,
            kind: RecordKind::Match,
            bytes: vec![120; MAX_MODEL_PROJECTION_BYTES],
        }],
        raw_bytes: 2 * MAX_MODEL_PROJECTION_BYTES,
    };
    assert_eq!(render_projection(&packet), Err(ProjectionError::TooLarge));
}

#[test]
fn malformed_and_oversized_requests_are_deleted_before_rejection() {
    let found = |bytes: u64| FoundFile {
        is_symlink: false,
        is_file: true,
        bytes,
    };
    let malformed = inspect_request(Some(found(8)));
    assert_eq!(malformed, Inspection::Read);
    assert!(matches!(
        consume_request(malformed, 8, None),
        ConsumedRequest::Rejected(RequestRejection::Malformed)
    ));
    let oversized = inspect_request(Some(found(MAX_PRIVATE_REQUEST_BYTES as u64 + 1)));
    assert_eq!(oversized, Inspection::Remove);
    assert!(matches!(
        consume_request(oversized, 0, None),
        ConsumedRequest::Rejected(RequestRejection::Oversized)
    ));
    let link = FoundFile {
        is_symlink: true,
        is_file: false,
        bytes: 1,
    };
    assert_eq!(inspect_frame(Some(link)), Inspection::Remove);
}

#[test]
fn raw_parser_rejects_ambiguous_and_non_relative_records() {
    let present = vec!["src/file.rs".to_owned()];
    let parsed = |raw: &str| parse_raw_records(raw.as_bytes(), &present);
    assert!(parsed("src/file.rs:1:Needle\n").is_some());
    assert!(parsed("src/file.rs:1:a:2:b\n").is_some());
    assert!(parsed("../secret.rs:1:Needle\n").is_none());
    assert!(parsed("src/file.rs:1:Needle\n--\n").is_some());
    assert!(paths_to_look_up("src/file.rs:1:Needle\n".as_bytes()).contains(&present[0]));
    assert_eq!(
        normalize_raw_relative_path("./src/file.rs").as_deref(),
        Some("src/file.rs")
    );
    assert_eq!(normalize_raw_relative_path("/src/file.rs"), None);
}

#[test]
fn cleanup_removes_expired_and_orphaned_state_without_following_traversal() {
    let found = FoundFile {
        is_symlink: false,
        is_file: true,
        bytes: 100,
    };
    let stamped = |name: &str, expires_at: u64| SerializedEntry {
        name: Some(name.to_owned()),
        found,
        stamp: Some(Stamped {
            version: 1,
            expires_at,
        }),
        raw: "{\"version\":1}".as_bytes().to_vec(),
    };
    let frames = vec![
        stamped(&format!("{}.json", "c".repeat(64)), 0),
        SerializedEntry {
            name: Some(".interrupted.tmp".to_owned()),
            found,
            stamp: None,
            raw: "{\"version\":1}".as_bytes().to_vec(),
        },
        stamped(&format!("{}.json", "e".repeat(64)), 11),
    ];
    let requests = vec![stamped(&format!("{}.json", "d".repeat(64)), 0)];
    let raw = vec![
        RawEntry {
            is_symlink: false,
            is_file: true,
            modified: Some(9),
        },
        RawEntry {
            is_symlink: true,
            is_file: false,
            modified: Some(9),
        },
    ];
    let verifications = vec![VerifyEntry::Directory {
        canonical: "/w/.git/cabal-runtime/causal-context/verify/interrupted".to_owned(),
    }];
    let plan = gateway().cleanup(&frames, &requests, &raw, &verifications, 10, &None);
    let report = plan.report.unwrap();
    assert_eq!(report.expired_frames, 1);
    assert_eq!(report.expired_requests, 1);
    assert_eq!(report.orphan_verification_entries, 1);
    assert_eq!(report.malformed_files, 1);
    assert_eq!(report.orphan_raw_files, 1);
    assert_eq!(plan.frames, [0, 1]);
    assert_eq!(plan.requests, [0]);
    assert_eq!(plan.raw, [1]);
    assert!(ensure_relative_path("../escape", Platform::Posix).is_err());
    assert!(ensure_relative_path("requests/../escape", Platform::Posix).is_err());
    assert!(ensure_relative_path("requests/name", Platform::Posix).is_ok());
    let kept = gateway().cleanup(
        &Vec::new(),
        &requests,
        &Vec::new(),
        &vec![VerifyEntry::Symlink],
        10,
        &Some("d".repeat(64)),
    );
    assert!(kept.requests.is_empty());
    assert_eq!(kept.report, Err(GatewayError::UnsafeStatePath));
}

#[test]
fn observer_frame_write_respects_the_aggregate_state_bound() {
    let gateway = gateway();
    assert!(matches!(
        gateway.register_frame("bounded-session", None, head(), 1, &Ok(MAX_STATE_BYTES)),
        Err(GatewayError::StateLimit)
    ));
    assert_eq!(
        gateway.register_frame("s", None, head(), 1, &Err(GatewayError::UnsafeStatePath)),
        Err(GatewayError::UnsafeStatePath)
    );
}

#[test]
fn concurrent_requests_leave_bounded_clean_private_state() {
    for index in 0..4 {
        let session = format!("concurrent-session-{index}");
        assert!(gateway()
            .register_frame(&session, None, head(), 10, &Ok(0))
            .is_ok());
        assert!(matches!(
            executed(
                "CausalNeedle",
                &head(),
                &repeated(),
                &["src/some/deep/directory/repeated.rs"]
            ),
            Outcome::Projection { .. }
        ));
    }
    let usage = state_usage(&vec![
        StateEntry::Directory,
        StateEntry::File { bytes: 5 },
        StateEntry::File { bytes: 7 },
    ])
    .unwrap();
    assert_eq!(usage, 12);
    assert!(usage <= MAX_STATE_BYTES);
    let report = CleanupReport {
        expired_frames: 0,
        expired_requests: 0,
        orphan_raw_files: 0,
        orphan_verification_entries: 0,
        malformed_files: 0,
    };
    assert_eq!(check_usage(report, usage), Ok(report));
    assert_eq!(
        check_usage(report, MAX_STATE_BYTES + 1),
        Err(GatewayError::StateLimit)
    );
    assert!(state_usage(&vec![StateEntry::Symlink]).is_err());
}

#[test]
fn cwd_and_near_miss_fail_open_before_state_mutation() {
    let prepared = |cwd: &str, command: &str| {
        gateway().prepare_request(
            "session-1",
            Some(cwd),
            command,
            &Some(frame(10)),
            &head(),
            10,
            &Ok(0),
        )
    };
    assert_eq!(
        prepared("/w/src", "rg -n -C 8 -- Needle ."),
        Preparation::Pass
    );
    assert_eq!(
        prepared("/w", "rg -n -C 8 -- Needle .; echo nope"),
        Preparation::Pass
    );
}

#[test]
fn requests_need_a_live_frame_at_the_same_revision() {
    let prepared = |frame: Option<ObserverFrameLite>, head: GitHead, now: u64| {
        gateway().prepare_request(
            "session-1",
            Some("/w"),
            "rg -n -C 8 -- Needle .",
            &frame,
            &head,
            now,
            &Ok(0),
        )
    };
    let refused = |message: &str, remove_frame: bool| Preparation::Refused {
        error: GatewayError::InvalidInput(message.to_owned()),
        remove_frame,
    };
    assert_eq!(
        prepared(None, head(), 10),
        refused("active observer frame is missing", false)
    );
    assert_eq!(
        prepared(Some(frame(10)), head(), 10 + FRAME_TTL_SECONDS),
        refused("active observer frame is stale", true)
    );
    assert_eq!(
        prepared(Some(frame(10)), GitHead::Unborn, 10),
        refused("Git revision changed after frame registration", false)
    );
}

#[test]
fn git_head_change_before_executor_requires_replay() {
    let moved = parse_commit(Some("abcdefabcdefabcdefabcdefabcdefabcdefabcd\n"));
    assert_ne!(moved, GitHead::Unavailable);
    assert!(matches!(
        executed("Needle", &moved, "", &[]),
        Outcome::RawReplay {
            reason: ReplayReason::RevisionStale,
            captured_exit_code: None,
            ..
        }
    ));
}

#[test]
fn packed_ref_head_change_requires_replay() {
    let answer = Some(GitAnswer {
        success: true,
        stdout: "abcdefabcdefabcdefabcdefabcdefabcdefabcd\n"
            .as_bytes()
            .to_vec(),
    });
    let moved = read_git_head(&answer, None);
    assert!(matches!(
        executed("PackedNeedle", &moved, "", &[]),
        Outcome::RawReplay {
            reason: ReplayReason::RevisionStale,
            ..
        }
    ));
}

#[test]
fn linked_worktree_head_change_requires_replay() {
    assert_eq!(
        git_service_in_file("gitdir: /primary/.git/worktrees/linked\n", "/linked").as_deref(),
        Some("/primary/.git/worktrees/linked")
    );
    assert_eq!(
        git_service_in_file("gitdir: ../primary/.git", "/linked").as_deref(),
        Some("/linked/../primary/.git")
    );
    assert_eq!(git_service_in_file("elsewhere", "/linked"), None);
    assert!(matches!(
        executed("LinkedNeedle", &GitHead::Unborn, "", &[]),
        Outcome::RawReplay {
            reason: ReplayReason::RevisionStale,
            ..
        }
    ));
}

#[test]
fn requests_expire_and_belong_to_their_session() {
    let token = "a".repeat(64);
    let late = accept_request(
        &token,
        Some(10 + REQUEST_TTL_SECONDS),
        Some(ConsumedRequest::Request(request("Needle", 10))),
    );
    assert!(matches!(
        late,
        Err(Outcome::RawReplay {
            reason: ReplayReason::RequestExpired,
            ..
        })
    ));
    assert!(matches!(
        accept_request("short", Some(10), None),
        Err(Outcome::Rejected {
            reason: RequestRejection::InvalidToken
        })
    ));
    assert!(matches!(
        accept_request(&token, Some(10), None),
        Err(Outcome::Rejected {
            reason: RequestRejection::StateUnavailable
        })
    ));
    let incompatible = request("not an identifier", 10);
    assert!(matches!(
        accept_request(
            &token,
            Some(10),
            Some(ConsumedRequest::Request(incompatible))
        ),
        Err(Outcome::Rejected {
            reason: RequestRejection::Incompatible
        })
    ));
    assert!(frame_is_current(&request("Needle", 10), &Some(frame(10)), 10));
    assert!(!frame_is_current(&request("Needle", 10), &Some(frame(11)), 11));
    assert!(!frame_is_current(&request("Needle", 10), &None, 10));
    let stale = gateway().execute_request(
        &token,
        Some(10),
        Some(ConsumedRequest::Request(request("Needle", 10))),
        Some(false),
        &head(),
        &None,
        &Vec::new(),
    );
    assert!(matches!(
        stale,
        Outcome::RawReplay {
            reason: ReplayReason::SessionStale,
            ..
        }
    ));
}

#[test]
fn captures_are_judged_before_they_are_read() {
    let run = |exit_code: Option<i32>, stderr: &str, overflowed: bool, timed_out: bool| Capture {
        stdout: Vec::new(),
        stderr: stderr.as_bytes().to_vec(),
        exit_code,
        overflowed,
        timed_out,
    };
    let reason = |capture: Capture| capture_replay_reason(&capture);
    assert_eq!(
        reason(run(Some(0), "", true, false)),
        Some(ReplayReason::CaptureOverflow)
    );
    assert_eq!(
        reason(run(None, "", false, true)),
        Some(ReplayReason::CaptureTimedOut)
    );
    assert_eq!(
        reason(run(Some(0), "warning", false, false)),
        Some(ReplayReason::RipgrepError)
    );
    assert_eq!(
        reason(run(Some(1), "", false, false)),
        Some(ReplayReason::RipgrepExit)
    );
    assert_eq!(reason(run(Some(0), "", false, false)), None);
    assert_eq!(keep_within_bound(0, 5), (5, false));
    assert_eq!(
        keep_within_bound(MAX_RAW_SEARCH_BYTES - 2, 5),
        (2, true)
    );
    assert_eq!(
        watch_process(false, EXECUTOR_TIMEOUT_SECONDS, false),
        Watch::Kill { timed_out: true }
    );
    assert_eq!(
        watch_process(true, 0, false),
        Watch::Kill { timed_out: false }
    );
    assert_eq!(watch_process(false, 0, true), Watch::Done);
    assert_eq!(watch_process(false, 0, false), Watch::Wait);
}

#[test]
fn other_ends_of_a_run_are_replayed() {
    assert!(matches!(
        executed("Needle", &head(), "no record at all\n", &[]),
        Outcome::RawReplay {
            reason: ReplayReason::RawParse,
            ..
        }
    ));
    let nul = format!("{}./a.rs:99:Needle\0\n", "./a.rs:1:Needle\n".repeat(9));
    assert!(matches!(
        executed("Needle", &head(), &nul, &["a.rs"]),
        Outcome::RawReplay {
            reason: ReplayReason::Integrity,
            ..
        }
    ));
}

#[test]
fn gateways_need_a_directory_with_its_own_git_directory() {
    let resolved = |path: &str, is_directory: bool| {
        Some(ResolvedPath {
            path: path.to_owned(),
            is_directory,
        })
    };
    let git = Some("/w/.git".to_owned());
    assert_eq!(
        Gateway::open(&None, &git, &resolved("/w/.git", true)).err(),
        Some(GatewayError::InvalidWorkspace)
    );
    assert_eq!(
        Gateway::open(&resolved("/w", false), &git, &resolved("/w/.git", true)).err(),
        Some(GatewayError::InvalidWorkspace)
    );
    assert_eq!(
        Gateway::open(&resolved("/w", true), &git, &resolved("/x/.git", true)).err(),
        Some(GatewayError::GitServiceMismatch)
    );
    assert_eq!(gateway().git_service_root(), "/w/.git");
    assert_eq!(
        check_state_directory("/s/a", false, true, "/s/a", "/s"),
        Ok(())
    );
    assert_eq!(
        check_state_directory("/s/a", false, true, "/t/a", "/s"),
        Err(GatewayError::UnsafeStatePath)
    );
}

#[test]
fn heads_and_tokens_are_read_from_what_git_says() {
    assert_eq!(parse_commit(Some("zz")), GitHead::Unavailable);
    assert_eq!(parse_commit(None), GitHead::Unavailable);
    let refused = Some(GitAnswer {
        success: false,
        stdout: Vec::new(),
    });
    assert_eq!(
        read_git_head(&refused, Some("ref: refs/heads/main\n")),
        GitHead::Unborn
    );
    assert_eq!(read_git_head(&None, None), GitHead::Unavailable);
    assert_eq!(token_of(&vec![171; 32]), "ab".repeat(32));
    assert!(digest_id("").is_err());
    assert!(request("Needle", 10)
        .to_json()
        .to_text()
        .contains("\"created_at\":10"));
    let search = ExactSearch {
        identifier: "Needle".to_owned(),
    };
    assert_eq!(search.duplicate(), search);
}

#[test]
fn files_are_present_in_the_workspace_alone() {
    assert!(is_present("/w/src/file.rs", "/w", true));
    assert!(!is_present("/w/src", "/w", false));
    assert!(!is_present("/workshop/file.rs", "/w", true));
}

#[test]
fn expired_requests_are_replayed_only_where_they_are_recognised() {
    let token = "a".repeat(64);
    let late = Some(10 + REQUEST_TTL_SECONDS);
    let accepted = |request: CausalContextRequest| {
        accept_request(&token, late, Some(ConsumedRequest::Request(request)))
    };
    assert_eq!(
        accepted(request("x; whoami", 10)).err(),
        Some(Outcome::Rejected {
            reason: RequestRejection::Incompatible
        })
    );
    let mut foreign = request("Needle", 10);
    foreign.version += 1;
    assert!(matches!(
        accepted(foreign.clone()),
        Err(Outcome::RawReplay {
            reason: ReplayReason::RequestExpired,
            ..
        })
    ));
    assert_eq!(
        accept_request(&token, Some(10), Some(ConsumedRequest::Request(foreign))).err(),
        Some(Outcome::Rejected {
            reason: RequestRejection::Incompatible
        })
    );
    let Err(Outcome::RawReplay { search, reason, .. }) = accepted(request("Needle", 10)) else {
        panic!("an expired request is replayed");
    };
    assert_eq!(search.identifier(), "Needle");
    assert_eq!(reason, ReplayReason::RequestExpired);
}

#[test]
fn a_request_is_run_once() {
    let file = FoundFile {
        is_symlink: false,
        is_file: true,
        bytes: 9,
    };
    assert_eq!(inspect_request(Some(file)), Inspection::Read);
    assert!(can_remove(file));
    let again = consume_request(inspect_request(None), 0, None);
    assert_eq!(again, ConsumedRequest::Rejected(RequestRejection::Missing));
    assert_eq!(
        accept_request(&"a".repeat(64), Some(10), Some(again)).err(),
        Some(Outcome::Rejected {
            reason: RequestRejection::Missing
        })
    );
    let directory = FoundFile {
        is_symlink: false,
        is_file: false,
        bytes: 0,
    };
    assert!(!can_remove(directory));
}

#[test]
fn expired_state_is_malformed_where_it_is_no_json() {
    let found = FoundFile {
        is_symlink: false,
        is_file: true,
        bytes: 9,
    };
    let entry = |raw: &str, stamp: Option<Stamped>| SerializedEntry {
        name: Some(format!("{}.json", "c".repeat(64))),
        found,
        stamp,
        raw: raw.as_bytes().to_vec(),
    };
    let swept = |entry: SerializedEntry| {
        gateway()
            .cleanup(&vec![entry], &Vec::new(), &Vec::new(), &Vec::new(), 10, &None)
            .report
            .unwrap()
    };
    let plain = swept(entry("[1]", None));
    assert_eq!((plain.expired_frames, plain.malformed_files), (1, 0));
    let broken = swept(entry("[1", None));
    assert_eq!((broken.expired_frames, broken.malformed_files), (1, 1));
    let current = swept(entry(
        "[1",
        Some(Stamped {
            version: 1,
            expires_at: 11,
        }),
    ));
    assert_eq!((current.expired_frames, current.malformed_files), (0, 0));
}

#[test]
fn cleaning_what_is_left_removes_nothing() {
    let found = FoundFile {
        is_symlink: false,
        is_file: true,
        bytes: 9,
    };
    let entry = |expires_at: u64| SerializedEntry {
        name: Some(format!("{}.json", "c".repeat(64))),
        found,
        stamp: Some(Stamped {
            version: 1,
            expires_at,
        }),
        raw: "{}".as_bytes().to_vec(),
    };
    let first = gateway().cleanup(
        &vec![entry(3), entry(30)],
        &Vec::new(),
        &Vec::new(),
        &Vec::new(),
        10,
        &None,
    );
    assert_eq!(first.frames, [0]);
    let second = gateway().cleanup(
        &vec![entry(30)],
        &Vec::new(),
        &Vec::new(),
        &Vec::new(),
        10,
        &None,
    );
    assert!(second.frames.is_empty());
    let nothing = CleanupReport {
        expired_frames: 0,
        expired_requests: 0,
        orphan_raw_files: 0,
        orphan_verification_entries: 0,
        malformed_files: 0,
    };
    assert_eq!(second.report, Ok(nothing));
}
