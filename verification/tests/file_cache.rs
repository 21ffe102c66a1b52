use cabal_runtime::file_cache::{
    cache_key, inspect_supported_file, is_covered, is_stable_read, merge_range, observe_file, read_again,
    supports_file, supports_request, CacheEntry, CacheError, ChangedRange, FileFacts,
    ObservationStatus, Observed, ObservedRange, RequestedRange, Stamp, MAX_FILE_BYTES,
    MAX_SLICE_BYTES, MAX_SLICE_LINES,
};

fn facts(path: &str, content: &str) -> FileFacts {
    FileFacts {
        canonical: path.to_owned(),
        is_file: true,
        bytes: content.len() as u64,
        modified_nanos: Some(1),
    }
}

fn observed(
    path: &str,
    content: &str,
    requested: RequestedRange,
    previous: Option<CacheEntry>,
    old: &str,
) -> Result<Observed, CacheError> {
    observe_file(
        &facts(path, content),
        content.as_bytes(),
        "/w",
        "/state",
        requested,
        previous,
        old,
    )
}

#[test]
fn first_read_then_covered_repeat_and_new_range() {
    let content = "one\r\ntwo\r\nthree\r\n";
    let lines = |start: u64, end: u64| RequestedRange::Lines { start, end };
    let first = observed("/w/file.txt", content, lines(1, 2), None, "").unwrap();
    assert_eq!(first.observation.status, ObservationStatus::Content);
    assert_eq!(
        first.observation.content.as_deref(),
        Some("one\r\ntwo\r\n")
    );

    let repeated = observed(
        "/w/file.txt",
        content,
        lines(1, 1),
        first.entry.clone(),
        content,
    )
    .unwrap();
    assert_eq!(repeated.observation.status, ObservationStatus::Unchanged);
    assert!(repeated.observation.content.is_none());

    let new_range = observed("/w/file.txt", content, lines(2, 3), first.entry, content).unwrap();
    assert_eq!(new_range.observation.status, ObservationStatus::Content);
    assert_eq!(
        new_range.observation.content.as_deref(),
        Some("two\r\nthree\r\n")
    );
}

#[test]
fn changed_content_wins_over_same_metadata_and_restored_timestamp() {
    let before = "alpha\nbeta\n";
    let after = "alpha\nzeta\n";
    let path = "/w/same-size.txt";
    let first = observed(path, before, RequestedRange::Full, None, "").unwrap();
    let changed = observed(path, after, RequestedRange::Full, first.entry, before).unwrap();
    assert_eq!(changed.observation.status, ObservationStatus::Changed);
    assert_eq!(
        changed.observation.content.as_deref(),
        Some("alpha\nzeta\n")
    );
    assert_eq!(changed.observation.changed_ranges.len(), 1);
    assert_eq!(
        changed.observation.changed_ranges[0],
        ChangedRange {
            old_start: 2,
            old_lines: 1,
            new_start: 2,
            new_lines: 1,
        }
    );
}

#[test]
fn session_and_compact_invalidation_force_refresh() {
    assert_ne!(cache_key("a", "/w/file.txt"), cache_key("b", "/w/file.txt"));
    let other = observed("/w/file.txt", "content\n", RequestedRange::Full, None, "").unwrap();
    assert_eq!(other.observation.status, ObservationStatus::Content);
}

#[test]
fn unicode_bom_no_final_newline_and_rapid_rewrite_are_exact() {
    let path = "/w/юникод.txt";
    let start = "\u{feff}один\nдва";
    let first = observed(path, start, RequestedRange::Full, None, "").unwrap();
    assert_eq!(
        first.observation.content.as_deref(),
        Some("\u{feff}один\nдва")
    );

    let mut entry = first.entry;
    let mut old = start;
    for value in ["три\nдва", "три\nчетыре", "пять\nчетыре"] {
        let changed = observed(path, value, RequestedRange::Full, entry, old).unwrap();
        assert_eq!(changed.observation.status, ObservationStatus::Changed);
        assert_eq!(changed.observation.content.as_deref(), Some(value));
        entry = changed.entry;
        old = value;
    }
}

#[test]
fn rejects_invalid_utf8_outside_workspace_and_bounds() {
    assert!(!supports_file(&Ok(vec![0xff, 0xfe])));
    assert!(matches!(
        inspect_supported_file(&facts("/elsewhere/file.txt", "x\n"), "/w"),
        Err(CacheError::OutsideWorkspace)
    ));
    assert!(!supports_file(&Err(CacheError::OutsideWorkspace)));

    assert!(matches!(
        observed(
            "/w/text.txt",
            "x\n",
            RequestedRange::Lines {
                start: 1,
                end: MAX_SLICE_LINES + 1
            },
            None,
            ""
        ),
        Err(CacheError::InvalidRange)
    ));

    let oversized = FileFacts {
        canonical: "/w/oversized.txt".to_owned(),
        is_file: true,
        bytes: MAX_FILE_BYTES + 1,
        modified_nanos: None,
    };
    assert!(matches!(
        inspect_supported_file(&oversized, "/w"),
        Err(CacheError::FileTooLarge)
    ));
    assert!(!supports_request(
        &Err(CacheError::FileTooLarge),
        RequestedRange::Full
    ));
}

#[test]
fn concurrent_observers_are_serialized_without_stale_or_failed_results() {
    let content = "shared content\n";
    let mut entry: Option<CacheEntry> = None;
    let mut statuses = Vec::new();
    for _ in 0..8 {
        let seen = observed(
            "/w/shared.txt",
            content,
            RequestedRange::Full,
            entry.clone(),
            content,
        )
        .unwrap();
        statuses.push(seen.observation.status);
        entry = seen.entry.or(entry);
    }
    assert_eq!(
        statuses
            .iter()
            .filter(|status| **status == ObservationStatus::Content)
            .count(),
        1
    );
    assert_eq!(
        statuses
            .iter()
            .filter(|status| **status == ObservationStatus::Unchanged)
            .count(),
        7
    );
}

#[test]
fn rename_and_delete_cannot_reuse_the_old_path_observation() {
    assert_ne!(
        cache_key("session", "/w/old.txt"),
        cache_key("session", "/w/new.txt")
    );
    assert!(!supports_file(&Err(CacheError::Io("not found".to_owned()))));
    let renamed = observed("/w/new.txt", "content\n", RequestedRange::Full, None, "").unwrap();
    assert_eq!(renamed.observation.status, ObservationStatus::Content);
}

#[test]
fn ranges_are_merged_where_they_touch() {
    let range = |start: u64, end: u64| ObservedRange { start, end };
    assert_eq!(
        merge_range(&vec![range(1, 2), range(8, 9)], range(3, 5)),
        [range(1, 5), range(8, 9)]
    );
    assert!(is_covered(&vec![range(1, 5)], range(2, 4)));
    assert!(!is_covered(&vec![range(1, 2), range(3, 5)], range(2, 4)));
}

#[test]
fn reads_are_stable_when_nothing_moved() {
    let stamp = Stamp {
        bytes: 1,
        modified_nanos: Some(1),
    };
    let later = Stamp {
        bytes: 1,
        modified_nanos: Some(2),
    };
    assert!(is_stable_read(stamp, &[1], stamp, &[1], stamp));
    assert!(!is_stable_read(stamp, &[1], stamp, &[2], stamp));
    assert!(!is_stable_read(stamp, &[1], stamp, &[1], later));
}

#[test]
fn a_moving_file_is_read_three_times_at_most() {
    assert_eq!(read_again(0), Ok(()));
    assert_eq!(read_again(2), Ok(()));
    assert_eq!(read_again(3), Err(CacheError::ConcurrentChange));
}

#[test]
fn requests_are_checked_against_the_content() {
    let content: Result<Vec<u8>, CacheError> = Ok("a\nb\n".as_bytes().to_vec());
    assert!(supports_request(
        &content,
        RequestedRange::Lines { start: 1, end: 2 }
    ));
    let empty = RequestedRange::Lines { start: 2, end: 1 };
    assert!(!supports_request(&content, empty));
    assert!(matches!(
        observed("/w/a.txt", "a\nb\n", empty, None, ""),
        Err(CacheError::InvalidRange)
    ));
    let wide = "x".repeat(MAX_SLICE_BYTES + 1);
    assert!(matches!(
        observed(
            "/w/wide.txt",
            &wide,
            RequestedRange::Lines { start: 1, end: 1 },
            None,
            ""
        ),
        Err(CacheError::SliceTooLarge)
    ));
}

#[test]
fn cache_errors_have_words() {
    assert!(CacheError::InvalidRange.message().len() > 0);
    assert_ne!(
        CacheError::NotFile.message(),
        CacheError::PathTooLong.message()
    );
    assert!(CacheError::Io("gone".to_owned()).message().contains("gone"));
}

#[test]
fn workspaces_are_compared_by_their_parts() {
    for workspace in ["/w", "/w/.", "/w//"] {
        let seen = observe_file(
            &facts("/w/src/file.txt", "one\n"),
            "one\n".as_bytes(),
            workspace,
            "/state",
            RequestedRange::Full,
            None,
            "",
        )
        .unwrap();
        assert_eq!(seen.observation.path, "src/file.txt", "{workspace}");
    }
}

#[test]
fn ranges_come_out_in_order_and_apart() {
    let range = |start: u64, end: u64| ObservedRange { start, end };
    assert_eq!(
        merge_range(&vec![range(20, 30), range(1, 2), range(6, 7)], range(9, 9)),
        [range(1, 2), range(6, 7), range(9, 9), range(20, 30)]
    );
}
