use cabal_runtime::delta::{
    classify_path, normalize_bytes, normalize_status_bytes, ChangeKind, DeltaError, DeltaVerdict,
    FileClassification, Hunk, StatusKind, MAX_FILES, MAX_HUNKS_TOTAL,
};
use cabal_runtime::hook::projections::project_diff;
use cabal_runtime::hook::ModelProjection;
use cabal_runtime::json::ToJson;

#[test]
fn preserves_modified_file_hunks_and_patch_counts() {
    let raw = "diff --git a/src/lib.rs b/src/lib.rs\nindex aaa..bbb 100644\n--- a/src/lib.rs\n+++ b/src/lib.rs\n@@ -10,2 +10,3 @@ fn run() {\n-old\n+new\n+extra\n context\n@@ -30 +31 @@ fn finish() {\n-before\n+after\n";

    let pack = normalize_bytes(raw.as_bytes()).unwrap();
    let file = pack.files.first().unwrap();

    assert_eq!(pack.verdict, DeltaVerdict::Changed);
    assert_eq!(file.change_kind, ChangeKind::Modified);
    assert_eq!(file.hunks.len(), 2);
    assert_eq!(file.hunks[0].old_start, 10);
    assert_eq!(file.hunks[0].new_lines, 3);
    assert_eq!(file.additions, 3);
    assert_eq!(file.deletions, 2);
    assert_eq!(
        file.hunks[1],
        Hunk {
            old_start: 30,
            old_lines: 1,
            new_start: 31,
            new_lines: 1,
        }
    );
    assert_eq!(pack.raw_artifact.sha256.len(), 64);
    assert_eq!(pack.raw_artifact.bytes, raw.len() as u64);
}

#[test]
fn distinguishes_add_delete_rename_and_binary_files() {
    let raw = "diff --git a/new.rs b/new.rs\nnew file mode 100644\n--- /dev/null\n+++ b/new.rs\n@@ -0,0 +1 @@\n+new\ndiff --git a/old.rs b/old.rs\ndeleted file mode 100644\n--- a/old.rs\n+++ /dev/null\n@@ -1 +0,0 @@\n-old\ndiff --git a/old_name.rs b/new_name.rs\nsimilarity index 100%\nrename from old_name.rs\nrename to new_name.rs\ndiff --git a/image.bin b/image.bin\nBinary files a/image.bin and b/image.bin differ\n";

    let pack = normalize_bytes(raw.as_bytes()).unwrap();

    assert_eq!(pack.files.len(), 4);
    assert_eq!(pack.files[0].change_kind, ChangeKind::Added);
    assert_eq!(pack.files[0].old_path, None);
    assert_eq!(pack.files[1].change_kind, ChangeKind::Deleted);
    assert_eq!(pack.files[1].new_path, None);
    assert_eq!(pack.files[2].change_kind, ChangeKind::Renamed);
    assert_eq!(pack.files[3].change_kind, ChangeKind::Modified);
    assert!(pack.files[3].is_binary);
    assert_eq!(pack.summary.files_added, 1);
    assert_eq!(pack.summary.files_deleted, 1);
    assert_eq!(pack.summary.files_renamed, 1);
    assert_eq!(pack.summary.binary_files, 1);
}

#[test]
fn empty_diff_is_clean() {
    let pack = normalize_bytes("".as_bytes()).unwrap();

    assert_eq!(pack.verdict, DeltaVerdict::Clean);
    assert!(pack.files.is_empty());
}

#[test]
fn rejects_quoted_git_paths_instead_of_guessing() {
    let raw = "diff --git \"a/file with space.rs\" \"b/file with space.rs\"\n";

    assert!(matches!(
        normalize_bytes(raw.as_bytes()),
        Err(DeltaError::UnsupportedQuotedPath(_))
    ));
}

#[test]
fn preserves_spaces_and_unicode_when_git_disables_path_quoting() {
    let raw = "diff --git a/old name.rs b/юникод name.rs\nrename from old name.rs\nrename to юникод name.rs\n";

    let pack = normalize_bytes(raw.as_bytes()).unwrap();

    assert_eq!(pack.files[0].old_path.as_deref(), Some("old name.rs"));
    assert_eq!(pack.files[0].new_path.as_deref(), Some("юникод name.rs"));
    assert_eq!(pack.files[0].change_kind, ChangeKind::Renamed);
    assert_eq!(pack.files[0].classification, FileClassification::Source);
}

#[test]
fn parses_porcelain_v2_staged_unstaged_untracked_and_rename() {
    let raw = "1 M. N... 100644 100644 100644 aaaaaaa bbbbbbb Cargo.toml\0".to_owned()
        + "1 .M N... 100644 100644 100644 aaaaaaa bbbbbbb src/lib.rs\0"
        + "2 R. N... 100644 100644 100644 aaaaaaa bbbbbbb R100 юникод name.rs\0old name.rs\0"
        + "? tests/new test.rs\0";

    let pack = normalize_status_bytes(raw.as_bytes()).unwrap();

    assert_eq!(pack.summary.files_changed, 4);
    assert_eq!(pack.summary.staged, 2);
    assert_eq!(pack.summary.unstaged, 1);
    assert_eq!(pack.summary.untracked, 1);
    assert_eq!(pack.entries[0].classification, FileClassification::Manifest);
    assert_eq!(pack.entries[1].classification, FileClassification::Source);
    assert_eq!(
        pack.entries[2].original_path.as_deref(),
        Some("old name.rs")
    );
    assert_eq!(pack.entries[3].classification, FileClassification::Test);
    assert_eq!(pack.entries[2].index_status, Some(StatusKind::Renamed));
    assert_eq!(pack.entries[0].worktree_status, None);
}

#[test]
fn malformed_nonempty_outputs_never_become_clean() {
    assert!(matches!(
        normalize_bytes("fatal: not a repository".as_bytes()),
        Err(DeltaError::MalformedDiffHeader(_))
    ));
    assert!(matches!(
        normalize_status_bytes("unexpected\0".as_bytes()),
        Err(DeltaError::MalformedStatus(_))
    ));
}

#[test]
fn malformed_hunks_and_bytes_are_refused() {
    assert!(matches!(
        normalize_bytes("diff --git a/x b/x\n@@ -a +1 @@\n".as_bytes()),
        Err(DeltaError::MalformedHunk(_))
    ));
    let broken = [0x64u8, 0xff];
    let error = normalize_bytes(&broken).unwrap_err();
    assert!(matches!(error, DeltaError::InvalidUtf8(_)));
    assert!(error.message().contains("invalid utf-8 sequence of 1 bytes from index 1"));
}

#[test]
fn projections_are_bounded_with_explicit_omissions() {
    let raw = (0..(MAX_FILES + 3))
        .map(|index| format!("? generated/file-{index}.rs\0"))
        .collect::<String>();

    let pack = normalize_status_bytes(raw.as_bytes()).unwrap();

    assert_eq!(pack.entries.len(), MAX_FILES);
    assert_eq!(pack.summary.files_changed, (MAX_FILES + 3) as u64);
    assert_eq!(pack.omitted_files, 3);
    assert!(pack.completeness.contains("bounded"));
}

#[test]
fn diff_hunks_obey_per_file_and_global_limits() {
    let mut raw = String::new();
    for file in 0..5 {
        raw.push_str(&format!("diff --git a/file-{file}.rs b/file-{file}.rs\n"));
        for hunk in 0..70 {
            raw.push_str(&format!(
                "@@ -{},1 +{},1 @@\n-old\n+new\n",
                hunk + 1,
                hunk + 1
            ));
        }
    }

    let pack = normalize_bytes(raw.as_bytes()).unwrap();
    let retained = pack
        .files
        .iter()
        .map(|file| file.hunks.len())
        .sum::<usize>();

    assert_eq!(retained, MAX_HUNKS_TOTAL);
    assert_eq!(pack.omitted_hunks, 350 - MAX_HUNKS_TOTAL as u64);
    assert!(pack.completeness.contains("bounded"));
}

#[test]
fn fixture_retains_changed_files_hunks_and_smaller_projection() {
    let noise = "     a long line of context that did not change at all\n".repeat(20);
    let raw = format!(
        "diff --git a/src/lib.rs b/src/lib.rs\nindex aaa..bbb 100644\n--- a/src/lib.rs\n+++ b/src/lib.rs\n@@ -1,20 +1,21 @@\n{noise}-old\n+new\n+extra\ndiff --git a/src/main.rs b/src/main.rs\nindex ccc..ddd 100644\n--- a/src/main.rs\n+++ b/src/main.rs\n@@ -1,20 +1,21 @@\n{noise}+another\n"
    );
    let pack = normalize_bytes(raw.as_bytes()).unwrap();
    let projection = ModelProjection::Diff(project_diff(&pack)).to_json().to_text();

    assert_eq!(pack.verdict, DeltaVerdict::Changed);
    assert_eq!(pack.files.len(), 2);
    assert!(pack
        .files
        .iter()
        .all(|file| file.change_kind == ChangeKind::Modified));
    assert_eq!(pack.summary.additions, 3);
    assert_eq!(pack.summary.deletions, 1);
    assert!(projection.len() < raw.len());
}

#[test]
fn paths_have_one_class_each() {
    assert_eq!(classify_path("Cargo.lock"), FileClassification::Lockfile);
    assert_eq!(classify_path("Cargo.toml"), FileClassification::Manifest);
    assert_eq!(classify_path("README.md"), FileClassification::Documentation);
    assert_eq!(classify_path("tests/a.rs"), FileClassification::Test);
    assert_eq!(classify_path("src/a.rs"), FileClassification::Source);
    assert_eq!(classify_path("image.bin"), FileClassification::Other);
}
