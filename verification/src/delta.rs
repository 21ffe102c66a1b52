//! Normalization of a captured unified Git diff and of captured Git status.
//!
//! Nothing here invokes Git. Raw bytes are kept elsewhere; a pack holds paths,
//! statuses, counts and hunk ranges.

pub mod laws;

use vstd::prelude::*;
use crate::digest;
use crate::list;
use crate::text;

verus! {

pub const MAX_FILES: usize = 128;

pub const MAX_HUNKS_PER_FILE: usize = 64;

pub const MAX_HUNKS_TOTAL: usize = 256;

#[derive(Clone, Copy, Debug, PartialEq, Eq, Structural)]
pub enum DeltaVerdict {
    Clean,
    Changed,
}

#[derive(Clone, Copy, Debug, PartialEq, Eq, Structural)]
pub enum ChangeKind {
    Added,
    Modified,
    Deleted,
    Renamed,
}

#[derive(Clone, Copy, Debug, PartialEq, Eq, Structural)]
pub enum FileClassification {
    Manifest,
    Source,
    Test,
    Generated,
    Lockfile,
    Documentation,
    Other,
}

#[derive(Clone, Copy, Debug, PartialEq, Eq, Structural)]
pub enum StatusKind {
    Added,
    Modified,
    Deleted,
    Renamed,
    Copied,
    TypeChanged,
    Unmerged,
    Unknown,
}

#[derive(Clone, Copy, Debug, PartialEq, Eq, Structural)]
pub struct Hunk {
    pub old_start: u64,
    pub old_lines: u64,
    pub new_start: u64,
    pub new_lines: u64,
}

#[derive(Clone, Debug, PartialEq, Eq)]
pub struct FileDelta {
    pub old_path: Option<String>,
    pub new_path: Option<String>,
    pub change_kind: ChangeKind,
    pub classification: FileClassification,
    pub is_binary: bool,
    pub hunks: Vec<Hunk>,
    pub additions: u64,
    pub deletions: u64,
}

/// What a `FileDelta` says.
pub struct FileDeltaModel {
    pub old_path: Option<Seq<char>>,
    pub new_path: Option<Seq<char>>,
    pub change_kind: ChangeKind,
    pub classification: FileClassification,
    pub is_binary: bool,
    pub hunks: Seq<Hunk>,
    pub additions: nat,
    pub deletions: nat,
}

impl DeepView for FileDelta {
    type V = FileDeltaModel;

    open spec fn deep_view(&self) -> FileDeltaModel {
        FileDeltaModel {
            old_path: self.old_path.deep_view(),
            new_path: self.new_path.deep_view(),
            change_kind: self.change_kind,
            classification: self.classification,
            is_binary: self.is_binary,
            hunks: self.hunks@,
            additions: self.additions as nat,
            deletions: self.deletions as nat,
        }
    }
}

#[derive(Clone, Copy, Debug, PartialEq, Eq, Structural)]
pub struct DeltaSummary {
    pub files_changed: u64,
    pub files_added: u64,
    pub files_deleted: u64,
    pub files_renamed: u64,
    pub binary_files: u64,
    pub additions: u64,
    pub deletions: u64,
}

/// What a `DeltaSummary` says.
pub struct DeltaSummaryModel {
    pub files_changed: nat,
    pub files_added: nat,
    pub files_deleted: nat,
    pub files_renamed: nat,
    pub binary_files: nat,
    pub additions: nat,
    pub deletions: nat,
}

impl DeepView for DeltaSummary {
    type V = DeltaSummaryModel;

    open spec fn deep_view(&self) -> DeltaSummaryModel {
        DeltaSummaryModel {
            files_changed: self.files_changed as nat,
            files_added: self.files_added as nat,
            files_deleted: self.files_deleted as nat,
            files_renamed: self.files_renamed as nat,
            binary_files: self.binary_files as nat,
            additions: self.additions as nat,
            deletions: self.deletions as nat,
        }
    }
}

#[derive(Clone, Debug, PartialEq, Eq)]
pub struct RawArtifact {
    pub uri: String,
    pub sha256: String,
    pub bytes: u64,
}

/// What a `RawArtifact` says.
pub struct RawArtifactModel {
    pub uri: Seq<char>,
    pub sha256: Seq<char>,
    pub bytes: nat,
}

impl DeepView for RawArtifact {
    type V = RawArtifactModel;

    open spec fn deep_view(&self) -> RawArtifactModel {
        RawArtifactModel {
            uri: self.uri@,
            sha256: self.sha256@,
            bytes: self.bytes as nat,
        }
    }
}

#[derive(Clone, Debug, PartialEq, Eq)]
pub struct DeltaPack {
    pub schema: String,
    pub operation: String,
    pub verdict: DeltaVerdict,
    pub files: Vec<FileDelta>,
    pub summary: DeltaSummary,
    pub completeness: String,
    pub omitted_files: u64,
    pub omitted_hunks: u64,
    pub raw_artifact: RawArtifact,
}

/// What a `DeltaPack` says.
pub struct DeltaPackModel {
    pub schema: Seq<char>,
    pub operation: Seq<char>,
    pub verdict: DeltaVerdict,
    pub files: Seq<FileDeltaModel>,
    pub summary: DeltaSummaryModel,
    pub completeness: Seq<char>,
    pub omitted_files: nat,
    pub omitted_hunks: nat,
    pub raw_artifact: RawArtifactModel,
}

impl DeepView for DeltaPack {
    type V = DeltaPackModel;

    open spec fn deep_view(&self) -> DeltaPackModel {
        DeltaPackModel {
            schema: self.schema@,
            operation: self.operation@,
            verdict: self.verdict,
            files: self.files.deep_view(),
            summary: self.summary.deep_view(),
            completeness: self.completeness@,
            omitted_files: self.omitted_files as nat,
            omitted_hunks: self.omitted_hunks as nat,
            raw_artifact: self.raw_artifact.deep_view(),
        }
    }
}

#[derive(Clone, Debug, PartialEq, Eq)]
pub struct StatusEntry {
    pub path: String,
    pub original_path: Option<String>,
    pub index_status: Option<StatusKind>,
    pub worktree_status: Option<StatusKind>,
    pub untracked: bool,
    pub classification: FileClassification,
}

/// What a `StatusEntry` says.
pub struct StatusEntryModel {
    pub path: Seq<char>,
    pub original_path: Option<Seq<char>>,
    pub index_status: Option<StatusKind>,
    pub worktree_status: Option<StatusKind>,
    pub untracked: bool,
    pub classification: FileClassification,
}

impl DeepView for StatusEntry {
    type V = StatusEntryModel;

    open spec fn deep_view(&self) -> StatusEntryModel {
        StatusEntryModel {
            path: self.path@,
            original_path: self.original_path.deep_view(),
            index_status: self.index_status,
            worktree_status: self.worktree_status,
            untracked: self.untracked,
            classification: self.classification,
        }
    }
}

#[derive(Clone, Copy, Debug, PartialEq, Eq, Structural)]
pub struct StatusSummary {
    pub files_changed: u64,
    pub staged: u64,
    pub unstaged: u64,
    pub untracked: u64,
    pub conflicts: u64,
}

/// What a `StatusSummary` says.
pub struct StatusSummaryModel {
    pub files_changed: nat,
    pub staged: nat,
    pub unstaged: nat,
    pub untracked: nat,
    pub conflicts: nat,
}

impl DeepView for StatusSummary {
    type V = StatusSummaryModel;

    open spec fn deep_view(&self) -> StatusSummaryModel {
        StatusSummaryModel {
            files_changed: self.files_changed as nat,
            staged: self.staged as nat,
            unstaged: self.unstaged as nat,
            untracked: self.untracked as nat,
            conflicts: self.conflicts as nat,
        }
    }
}

#[derive(Clone, Debug, PartialEq, Eq)]
pub struct GitStatusPack {
    pub entries: Vec<StatusEntry>,
    pub summary: StatusSummary,
    pub completeness: String,
    pub omitted_files: u64,
    pub raw_artifact: RawArtifact,
}

/// What a `GitStatusPack` says.
pub struct GitStatusPackModel {
    pub entries: Seq<StatusEntryModel>,
    pub summary: StatusSummaryModel,
    pub completeness: Seq<char>,
    pub omitted_files: nat,
    pub raw_artifact: RawArtifactModel,
}

impl DeepView for GitStatusPack {
    type V = GitStatusPackModel;

    open spec fn deep_view(&self) -> GitStatusPackModel {
        GitStatusPackModel {
            entries: self.entries.deep_view(),
            summary: self.summary.deep_view(),
            completeness: self.completeness@,
            omitted_files: self.omitted_files as nat,
            raw_artifact: self.raw_artifact.deep_view(),
        }
    }
}

/// A file whose part of the diff is being read.
#[derive(Debug, PartialEq, Eq)]
pub struct FileBuilder {
    pub old_path: Option<String>,
    pub new_path: Option<String>,
    pub change_kind: ChangeKind,
    pub is_binary: bool,
    pub hunks: Vec<Hunk>,
    pub additions: u64,
    pub deletions: u64,
}

/// What a `FileBuilder` says.
pub struct FileBuilderModel {
    pub old_path: Option<Seq<char>>,
    pub new_path: Option<Seq<char>>,
    pub change_kind: ChangeKind,
    pub is_binary: bool,
    pub hunks: Seq<Hunk>,
    pub additions: nat,
    pub deletions: nat,
}

impl DeepView for FileBuilder {
    type V = FileBuilderModel;

    open spec fn deep_view(&self) -> FileBuilderModel {
        FileBuilderModel {
            old_path: self.old_path.deep_view(),
            new_path: self.new_path.deep_view(),
            change_kind: self.change_kind,
            is_binary: self.is_binary,
            hunks: self.hunks@,
            additions: self.additions as nat,
            deletions: self.deletions as nat,
        }
    }
}

#[derive(Clone, Debug, PartialEq, Eq)]
pub enum DeltaError {
    InvalidUtf8(String),
    UnsupportedQuotedPath(String),
    MalformedDiffHeader(String),
    MalformedHunk(String),
    MalformedStatus(String),
}

pub enum DeltaErrorModel {
    InvalidUtf8(Seq<char>),
    UnsupportedQuotedPath(Seq<char>),
    MalformedDiffHeader(Seq<char>),
    MalformedHunk(Seq<char>),
    MalformedStatus(Seq<char>),
}

impl DeepView for DeltaError {
    type V = DeltaErrorModel;

    open spec fn deep_view(&self) -> DeltaErrorModel {
        match self {
            DeltaError::InvalidUtf8(e) => DeltaErrorModel::InvalidUtf8(e@),
            DeltaError::UnsupportedQuotedPath(e) => DeltaErrorModel::UnsupportedQuotedPath(e@),
            DeltaError::MalformedDiffHeader(e) => DeltaErrorModel::MalformedDiffHeader(e@),
            DeltaError::MalformedHunk(e) => DeltaErrorModel::MalformedHunk(e@),
            DeltaError::MalformedStatus(e) => DeltaErrorModel::MalformedStatus(e@),
        }
    }
}

impl DeltaErrorModel {
    pub open spec fn message(self) -> Seq<char> {
        match self {
            DeltaErrorModel::InvalidUtf8(e) => "diff is not valid UTF-8: "@ + e,
            DeltaErrorModel::UnsupportedQuotedPath(e) => "quoted Git path syntax is not supported: "@
                + e,
            DeltaErrorModel::MalformedDiffHeader(e) => "malformed diff header: "@ + e,
            DeltaErrorModel::MalformedHunk(e) => "malformed diff hunk: "@ + e,
            DeltaErrorModel::MalformedStatus(e) => "malformed Git status: "@ + e,
        }
    }
}

impl DeltaError {
    /// The error as a sentence for a person.
    pub fn message(&self) -> (r: String)
        ensures
            r@ == self.deep_view().message(),
    {
        match self {
            DeltaError::InvalidUtf8(e) => text::concat("diff is not valid UTF-8: ", e.as_str()),
            DeltaError::UnsupportedQuotedPath(e) => text::concat(
                "quoted Git path syntax is not supported: ",
                e.as_str(),
            ),
            DeltaError::MalformedDiffHeader(e) => text::concat(
                "malformed diff header: ",
                e.as_str(),
            ),
            DeltaError::MalformedHunk(e) => text::concat("malformed diff hunk: ", e.as_str()),
            DeltaError::MalformedStatus(e) => text::concat("malformed Git status: ", e.as_str()),
        }
    }
}

pub open spec fn is_manifest(name: Seq<char>) -> bool {
    name == "cargo.toml"@ || name == "package.json"@ || name == "pyproject.toml"@ || name
        == "go.mod"@ || name == "build.gradle"@ || name == "pom.xml"@
}

pub open spec fn is_lockfile(name: Seq<char>) -> bool {
    text::finishes(name, ".lock"@) || name == "cargo.lock"@ || name == "package-lock.json"@
}

pub open spec fn is_generated(path: Seq<char>) -> bool {
    text::has(path, "/generated/"@) || text::begins(path, "generated/"@) || text::has(
        path,
        "/target/"@,
    ) || text::has(path, "/dist/"@)
}

pub open spec fn is_test(path: Seq<char>, name: Seq<char>) -> bool {
    text::has(path, "/tests/"@) || text::begins(path, "tests/"@) || text::finishes(
        name,
        "_test.rs"@,
    ) || text::finishes(name, ".test.ts"@) || text::finishes(name, ".spec.ts"@)
}

/// What stands behind the last dot of a name.
pub open spec fn extension_of(name: Seq<char>) -> Option<Seq<char>> {
    match text::cut_last(name, "."@) {
        Some((_, extension)) => Some(extension),
        None => None,
    }
}

pub open spec fn is_source_extension(extension: Seq<char>) -> bool {
    extension == "rs"@ || extension == "c"@ || extension == "cc"@ || extension == "cpp"@
        || extension == "h"@ || extension == "hpp"@ || extension == "go"@ || extension == "py"@
        || extension == "js"@ || extension == "ts"@ || extension == "tsx"@ || extension == "java"@
        || extension == "kt"@
}

pub open spec fn is_document_extension(extension: Seq<char>) -> bool {
    extension == "md"@ || extension == "rst"@ || extension == "txt"@ || extension == "adoc"@
}

/// The class of a path. It is decided by the path in lower case and with `/`
/// between its parts.
pub open spec fn classification_of(path: Seq<char>) -> FileClassification {
    let path = text::lowered(text::slashed(path));
    let name = text::base_name(path);
    if is_manifest(name) {
        FileClassification::Manifest
    } else if is_lockfile(name) {
        FileClassification::Lockfile
    } else if is_generated(path) {
        FileClassification::Generated
    } else if is_test(path, name) {
        FileClassification::Test
    } else {
        match extension_of(name) {
            Some(extension) => if is_source_extension(extension) {
                FileClassification::Source
            } else if is_document_extension(extension) {
                FileClassification::Documentation
            } else {
                FileClassification::Other
            },
            None => FileClassification::Other,
        }
    }
}

fn is_source(extension: &[char]) -> (r: bool)
    ensures
        r == is_source_extension(extension@),
{
    text::is(extension, "rs") || text::is(extension, "c") || text::is(extension, "cc") || text::is(
        extension,
        "cpp",
    ) || text::is(extension, "h") || text::is(extension, "hpp") || text::is(extension, "go")
        || text::is(extension, "py") || text::is(extension, "js") || text::is(extension, "ts")
        || text::is(extension, "tsx") || text::is(extension, "java") || text::is(extension, "kt")
}

fn is_document(extension: &[char]) -> (r: bool)
    ensures
        r == is_document_extension(extension@),
{
    text::is(extension, "md") || text::is(extension, "rst") || text::is(extension, "txt")
        || text::is(extension, "adoc")
}

/// The class of a path.
pub fn classify_path(path: &str) -> (r: FileClassification)
    ensures
        r == classification_of(path@),
{
    let slashed = text::to_slashes(text::to_chars(path).as_slice());
    let lower = text::to_lower(slashed.as_slice());
    let normalized = lower.as_slice();
    let name = text::file_name(normalized);
    if text::is(name, "cargo.toml") || text::is(name, "package.json") || text::is(
        name,
        "pyproject.toml",
    ) || text::is(name, "go.mod") || text::is(name, "build.gradle") || text::is(name, "pom.xml") {
        FileClassification::Manifest
    } else if text::ends_with(name, ".lock") || text::is(name, "cargo.lock") || text::is(
        name,
        "package-lock.json",
    ) {
        FileClassification::Lockfile
    } else if text::contains(normalized, "/generated/") || text::starts_with(
        normalized,
        "generated/",
    ) || text::contains(normalized, "/target/") || text::contains(normalized, "/dist/") {
        FileClassification::Generated
    } else if text::contains(normalized, "/tests/") || text::starts_with(normalized, "tests/")
        || text::ends_with(name, "_test.rs") || text::ends_with(name, ".test.ts")
        || text::ends_with(name, ".spec.ts") {
        FileClassification::Test
    } else {
        match text::split_once_last(name, ".") {
            Some((_, extension)) => if is_source(extension) {
                FileClassification::Source
            } else if is_document(extension) {
                FileClassification::Documentation
            } else {
                FileClassification::Other
            },
            None => FileClassification::Other,
        }
    }
}

impl FileBuilderModel {
    /// The file that a `diff --git a/old b/new` line opens.
    pub open spec fn opened(line: Seq<char>) -> Result<FileBuilderModel, DeltaErrorModel> {
        match text::after_prefix(line, "diff --git "@) {
            None => Err(DeltaErrorModel::MalformedDiffHeader(line)),
            Some(paths) => if text::has(paths, "\""@) {
                Err(DeltaErrorModel::UnsupportedQuotedPath(line))
            } else {
                match text::cut(paths, " b/"@) {
                    None => Err(DeltaErrorModel::MalformedDiffHeader(line)),
                    Some((old, new)) => match text::after_prefix(old, "a/"@) {
                        None => Err(DeltaErrorModel::MalformedDiffHeader(line)),
                        Some(old) => if old.len() == 0 || new.len() == 0 {
                            Err(DeltaErrorModel::UnsupportedQuotedPath(line))
                        } else {
                            Ok(
                                FileBuilderModel {
                                    old_path: Some(old),
                                    new_path: Some(new),
                                    change_kind: ChangeKind::Modified,
                                    is_binary: false,
                                    hunks: seq![],
                                    additions: 0,
                                    deletions: 0,
                                },
                            )
                        },
                    },
                }
            },
        }
    }

    /// After a line of the file's part of the diff.
    pub open spec fn after(self, line: Seq<char>) -> Result<FileBuilderModel, DeltaErrorModel> {
        if text::begins(line, "new file mode "@) {
            Ok(FileBuilderModel { change_kind: ChangeKind::Added, ..self })
        } else if text::begins(line, "deleted file mode "@) {
            Ok(FileBuilderModel { change_kind: ChangeKind::Deleted, ..self })
        } else if text::begins(line, "rename from "@) {
            Ok(
                FileBuilderModel {
                    old_path: text::after_prefix(line, "rename from "@),
                    change_kind: ChangeKind::Renamed,
                    ..self
                },
            )
        } else if text::begins(line, "rename to "@) {
            Ok(
                FileBuilderModel {
                    new_path: text::after_prefix(line, "rename to "@),
                    change_kind: ChangeKind::Renamed,
                    ..self
                },
            )
        } else if text::begins(line, "Binary files "@) || text::begins(line, "GIT binary patch"@) {
            Ok(FileBuilderModel { is_binary: true, ..self })
        } else if text::begins(line, "--- "@) {
            let path = marked_path(text::after_prefix(line, "--- "@)->0);
            Ok(
                FileBuilderModel {
                    old_path: path,
                    change_kind: if path is None {
                        ChangeKind::Added
                    } else {
                        self.change_kind
                    },
                    ..self
                },
            )
        } else if text::begins(line, "+++ "@) {
            let path = marked_path(text::after_prefix(line, "+++ "@)->0);
            Ok(
                FileBuilderModel {
                    new_path: path,
                    change_kind: if path is None {
                        ChangeKind::Deleted
                    } else {
                        self.change_kind
                    },
                    ..self
                },
            )
        } else if text::begins(line, "@@ "@) {
            match hunk_in(line) {
                Some(hunk) => Ok(FileBuilderModel { hunks: self.hunks.push(hunk), ..self }),
                None => Err(DeltaErrorModel::MalformedHunk(line)),
            }
        } else if text::begins(line, "+"@) && !text::begins(line, "+++"@) {
            Ok(FileBuilderModel { additions: self.additions + 1, ..self })
        } else if text::begins(line, "-"@) && !text::begins(line, "---"@) {
            Ok(FileBuilderModel { deletions: self.deletions + 1, ..self })
        } else {
            Ok(self)
        }
    }

    /// The file, when its part of the diff has been read.
    pub open spec fn finished(self) -> FileDeltaModel {
        FileDeltaModel {
            old_path: self.old_path,
            new_path: self.new_path,
            change_kind: self.change_kind,
            classification: classification_of(
                match self.new_path {
                    Some(path) => path,
                    None => match self.old_path {
                        Some(path) => path,
                        None => seq![],
                    },
                },
            ),
            is_binary: self.is_binary,
            hunks: self.hunks,
            additions: self.additions,
            deletions: self.deletions,
        }
    }
}

/// The path behind `--- ` or `+++ `; there is none in `/dev/null`.
pub open spec fn marked_path(value: Seq<char>) -> Option<Seq<char>> {
    let value = text::trimmed_end_of(value, '\t');
    if value == "/dev/null"@ {
        None
    } else {
        match text::after_prefix(value, "a/"@) {
            Some(path) => Some(path),
            None => text::after_prefix(value, "b/"@),
        }
    }
}

/// The start and the number of lines in `-start,count` or `-start`.
pub open spec fn range_in(value: Seq<char>, prefix: Seq<char>) -> Option<(u64, u64)> {
    match text::after_prefix(value, prefix) {
        Some(value) => {
            let (start, count) = match text::cut(value, ","@) {
                Some((start, count)) => (start, text::number_of(count)),
                None => (value, Some(1u64)),
            };
            match (text::number_of(start), count) {
                (Some(start), Some(count)) => Some((start, count)),
                _ => None,
            }
        },
        None => None,
    }
}

/// The hunk in `@@ -old +new @@ context`.
pub open spec fn hunk_in(line: Seq<char>) -> Option<Hunk> {
    match text::after_prefix(line, "@@ "@) {
        Some(rest) => match text::cut(rest, " @@"@) {
            Some((ranges, _)) => {
                let parts = text::words_of(ranges);
                if parts.len() != 2 {
                    None
                } else {
                    match (range_in(parts[0], "-"@), range_in(parts[1], "+"@)) {
                        (Some(old), Some(new)) => Some(
                            Hunk {
                                old_start: old.0,
                                old_lines: old.1,
                                new_start: new.0,
                                new_lines: new.1,
                            },
                        ),
                        _ => None,
                    }
                }
            },
            None => None,
        },
        None => None,
    }
}

fn marker_path(value: &[char]) -> (r: Option<String>)
    ensures
        r.deep_view() == marked_path(value@),
{
    let value = text::trim_end_of(value, '\t');
    if text::is(value, "/dev/null") {
        return None;
    }
    match text::strip_prefix(value, "a/") {
        Some(path) => Some(text::to_text(path)),
        None => match text::strip_prefix(value, "b/") {
            Some(path) => Some(text::to_text(path)),
            None => None,
        },
    }
}

fn parse_range(value: &[char], prefix: &str) -> (r: Option<(u64, u64)>)
    ensures
        r == range_in(value@, prefix@),
{
    match text::strip_prefix(value, prefix) {
        Some(value) => match text::split_once(value, ",") {
            Some((start, count)) => match (text::parse_number(start), text::parse_number(count)) {
                (Some(start), Some(count)) => Some((start, count)),
                _ => None,
            },
            None => match text::parse_number(value) {
                Some(start) => Some((start, 1)),
                None => None,
            },
        },
        None => None,
    }
}

fn parse_hunk(line: &[char]) -> (r: Option<Hunk>)
    ensures
        r == hunk_in(line@),
{
    let rest = match text::strip_prefix(line, "@@ ") {
        Some(rest) => rest,
        None => {
            return None;
        },
    };
    let ranges = match text::split_once(rest, " @@") {
        Some((ranges, _)) => ranges,
        None => {
            return None;
        },
    };
    let parts = text::words(ranges);
    let ghost all = text::views(parts@);
    if parts.len() != 2 {
        return None;
    }
    assert(all[0] == parts@[0]@ && all[1] == parts@[1]@);
    match (parse_range(parts[0], "-"), parse_range(parts[1], "+")) {
        (Some(old), Some(new)) => Some(
            Hunk { old_start: old.0, old_lines: old.1, new_start: new.0, new_lines: new.1 },
        ),
        _ => None,
    }
}

impl FileBuilder {
    fn from_header(line: &[char]) -> (r: Result<FileBuilder, DeltaError>)
        ensures
            match (r, FileBuilderModel::opened(line@)) {
                (Ok(builder), Ok(b)) => builder.deep_view() == b,
                (Err(error), Err(e)) => error.deep_view() == e,
                _ => false,
            },
    {
        let paths = match text::strip_prefix(line, "diff --git ") {
            Some(paths) => paths,
            None => {
                return Err(DeltaError::MalformedDiffHeader(text::to_text(line)));
            },
        };
        if text::contains(paths, "\"") {
            return Err(DeltaError::UnsupportedQuotedPath(text::to_text(line)));
        }
        let (old, new) = match text::split_once(paths, " b/") {
            Some(sides) => sides,
            None => {
                return Err(DeltaError::MalformedDiffHeader(text::to_text(line)));
            },
        };
        let old = match text::strip_prefix(old, "a/") {
            Some(old) => old,
            None => {
                return Err(DeltaError::MalformedDiffHeader(text::to_text(line)));
            },
        };
        if old.len() == 0 || new.len() == 0 {
            return Err(DeltaError::UnsupportedQuotedPath(text::to_text(line)));
        }
        let builder = FileBuilder {
            old_path: Some(text::to_text(old)),
            new_path: Some(text::to_text(new)),
            change_kind: ChangeKind::Modified,
            is_binary: false,
            hunks: Vec::new(),
            additions: 0,
            deletions: 0,
        };
        assert(builder.deep_view().hunks =~= Seq::empty());
        Ok(builder)
    }

    /// Reads a line of the file's part of the diff.
    pub fn line(&mut self, line: &[char]) -> (r: Result<(), DeltaError>)
        requires
            old(self).additions < u64::MAX,
            old(self).deletions < u64::MAX,
        ensures
            match (r, old(self).deep_view().after(line@)) {
                (Ok(_), Ok(next)) => final(self).deep_view() == next,
                (Err(error), Err(e)) => error.deep_view() == e,
                _ => false,
            },
    {
        if text::starts_with(line, "new file mode ") {
            self.change_kind = ChangeKind::Added;
            return Ok(());
        }
        if text::starts_with(line, "deleted file mode ") {
            self.change_kind = ChangeKind::Deleted;
            return Ok(());
        }
        match text::strip_prefix(line, "rename from ") {
            Some(path) => {
                self.old_path = Some(text::to_text(path));
                self.change_kind = ChangeKind::Renamed;
                return Ok(());
            },
            None => {},
        }
        match text::strip_prefix(line, "rename to ") {
            Some(path) => {
                self.new_path = Some(text::to_text(path));
                self.change_kind = ChangeKind::Renamed;
                return Ok(());
            },
            None => {},
        }
        if text::starts_with(line, "Binary files ") || text::starts_with(line, "GIT binary patch") {
            self.is_binary = true;
            return Ok(());
        }
        match text::strip_prefix(line, "--- ") {
            Some(path) => {
                self.old_path = marker_path(path);
                if self.old_path.is_none() {
                    self.change_kind = ChangeKind::Added;
                }
                return Ok(());
            },
            None => {},
        }
        match text::strip_prefix(line, "+++ ") {
            Some(path) => {
                self.new_path = marker_path(path);
                if self.new_path.is_none() {
                    self.change_kind = ChangeKind::Deleted;
                }
                return Ok(());
            },
            None => {},
        }
        if text::starts_with(line, "@@ ") {
            match parse_hunk(line) {
                Some(hunk) => self.hunks.push(hunk),
                None => {
                    return Err(DeltaError::MalformedHunk(text::to_text(line)));
                },
            }
        } else if text::starts_with(line, "+") && !text::starts_with(line, "+++") {
            self.additions = self.additions + 1;
        } else if text::starts_with(line, "-") && !text::starts_with(line, "---") {
            self.deletions = self.deletions + 1;
        }
        Ok(())
    }

    fn finish(self) -> (r: FileDelta)
        ensures
            r.deep_view() == self.deep_view().finished(),
    {
        let classification = match &self.new_path {
            Some(path) => classify_path(path.as_str()),
            None => match &self.old_path {
                Some(path) => classify_path(path.as_str()),
                None => {
                    let nothing = String::new();
                    assert(nothing@ =~= Seq::empty());
                    classify_path(nothing.as_str())
                },
            },
        };
        FileDelta {
            old_path: self.old_path,
            new_path: self.new_path,
            change_kind: self.change_kind,
            classification,
            is_binary: self.is_binary,
            hunks: self.hunks,
            additions: self.additions,
            deletions: self.deletions,
        }
    }
}

/// What has been read of a diff.
#[derive(Debug, PartialEq, Eq)]
pub struct DiffScan {
    pub files: Vec<FileDelta>,
    pub current: Option<FileBuilder>,
}

pub struct DiffScanModel {
    pub files: Seq<FileDeltaModel>,
    pub current: Option<FileBuilderModel>,
}

impl DeepView for DiffScan {
    type V = DiffScanModel;

    open spec fn deep_view(&self) -> DiffScanModel {
        DiffScanModel { files: self.files.deep_view(), current: self.current.deep_view() }
    }
}

impl DiffScanModel {
    pub open spec fn begin() -> DiffScanModel {
        DiffScanModel { files: seq![], current: None }
    }

    /// The files that have been read, with the one that is open.
    pub open spec fn all_files(self) -> Seq<FileDeltaModel> {
        match self.current {
            Some(builder) => self.files.push(builder.finished()),
            None => self.files,
        }
    }

    /// After one more line: a header closes the open file and opens another, and
    /// any other line belongs to the open file.
    pub open spec fn after(self, line: Seq<char>) -> Result<DiffScanModel, DeltaErrorModel> {
        if text::begins(line, "diff --git "@) {
            match FileBuilderModel::opened(line) {
                Ok(builder) => Ok(
                    DiffScanModel { files: self.all_files(), current: Some(builder) },
                ),
                Err(error) => Err(error),
            }
        } else {
            match self.current {
                Some(builder) => match builder.after(line) {
                    Ok(next) => Ok(DiffScanModel { current: Some(next), ..self }),
                    Err(error) => Err(error),
                },
                None => Ok(self),
            }
        }
    }
}

/// The files of a diff from line `i` on.
pub open spec fn diff_from(lines: Seq<Seq<char>>, i: int, scan: DiffScanModel) -> Result<
    Seq<FileDeltaModel>,
    DeltaErrorModel,
>
    decreases lines.len() - i,
{
    if i < 0 || i >= lines.len() {
        Ok(scan.all_files())
    } else {
        match scan.after(lines[i]) {
            Ok(next) => diff_from(lines, i + 1, next),
            Err(error) => Err(error),
        }
    }
}

/// The files of a diff.
pub open spec fn files_in(diff: Seq<char>) -> Result<Seq<FileDeltaModel>, DeltaErrorModel> {
    diff_from(text::lines_of(diff), 0, DiffScanModel::begin())
}

/// Added lines of the files from `i` on.
pub open spec fn additions_from(files: Seq<FileDeltaModel>, i: int) -> nat
    decreases files.len() - i,
{
    if i < 0 || i >= files.len() {
        0
    } else {
        files[i].additions + additions_from(files, i + 1)
    }
}

/// Deleted lines of the files from `i` on.
pub open spec fn deletions_from(files: Seq<FileDeltaModel>, i: int) -> nat
    decreases files.len() - i,
{
    if i < 0 || i >= files.len() {
        0
    } else {
        files[i].deletions + deletions_from(files, i + 1)
    }
}

/// Hunks of the files from `i` on.
pub open spec fn hunks_from(files: Seq<FileDeltaModel>, i: int) -> nat
    decreases files.len() - i,
{
    if i < 0 || i >= files.len() {
        0
    } else {
        files[i].hunks.len() + hunks_from(files, i + 1)
    }
}

proof fn sums_of_pushed(files: Seq<FileDeltaModel>, file: FileDeltaModel, i: int)
    requires
        0 <= i <= files.len(),
    ensures
        additions_from(files.push(file), i) == additions_from(files, i) + file.additions,
        deletions_from(files.push(file), i) == deletions_from(files, i) + file.deletions,
        hunks_from(files.push(file), i) == hunks_from(files, i) + file.hunks.len(),
    decreases files.len() - i,
{
    let more = files.push(file);
    if i < files.len() {
        sums_of_pushed(files, file, i + 1);
        assert(more[i] == files[i]);
    } else {
        assert(more[i] == file);
        assert(additions_from(more, i + 1) == 0);
        assert(deletions_from(more, i + 1) == 0);
        assert(hunks_from(more, i + 1) == 0);
    }
}

impl DiffScanModel {
    /// No more is counted than lines have been read.
    pub open spec fn within(self, lines: int) -> bool {
        let files = self.all_files();
        &&& files.len() <= lines
        &&& additions_from(files, 0) <= lines
        &&& deletions_from(files, 0) <= lines
        &&& hunks_from(files, 0) <= lines
    }
}

proof fn line_stays_within(scan: DiffScanModel, line: Seq<char>, lines: int)
    requires
        scan.within(lines),
    ensures
        scan.after(line) matches Ok(next) ==> next.within(lines + 1),
{
    match scan.after(line) {
        Ok(next) => {
            if next.current is Some {
                sums_of_pushed(next.files, next.current->0.finished(), 0);
            }
            if scan.current is Some {
                sums_of_pushed(scan.files, scan.current->0.finished(), 0);
            }
        },
        Err(_) => {},
    }
}

proof fn open_file_is_within(scan: DiffScanModel, lines: int)
    requires
        scan.within(lines),
    ensures
        scan.current matches Some(builder) ==> builder.additions <= lines && builder.deletions
            <= lines,
{
    if scan.current is Some {
        sums_of_pushed(scan.files, scan.current->0.finished(), 0);
    }
}

impl DiffScan {
    /// Reads one line.
    pub fn line(&mut self, line: &[char]) -> (r: Result<(), DeltaError>)
        requires
            old(self).deep_view().current matches Some(builder) ==> builder.additions < u64::MAX
                && builder.deletions < u64::MAX,
        ensures
            match (r, old(self).deep_view().after(line@)) {
                (Ok(_), Ok(next)) => final(self).deep_view() == next,
                (Err(error), Err(e)) => error.deep_view() == e,
                _ => false,
            },
    {
        if text::starts_with(line, "diff --git ") {
            let next = match FileBuilder::from_header(line) {
                Ok(next) => next,
                Err(error) => {
                    return Err(error);
                },
            };
            match self.current.take() {
                Some(builder) => list::push(&mut self.files, builder.finish()),
                None => {},
            }
            self.current = Some(next);
            return Ok(());
        }
        match self.current.take() {
            Some(builder) => {
                let mut builder = builder;
                match builder.line(line) {
                    Ok(_) => {
                        self.current = Some(builder);
                        Ok(())
                    },
                    Err(error) => Err(error),
                }
            },
            None => Ok(()),
        }
    }
}

/// The files of a diff.
pub fn parse_unified_diff(diff: &str) -> (r: Result<Vec<FileDelta>, DeltaError>)
    ensures
        match (r, files_in(diff@)) {
            (Ok(files), Ok(f)) => {
                &&& files.deep_view() == f
                &&& additions_from(f, 0) <= usize::MAX
                &&& deletions_from(f, 0) <= usize::MAX
                &&& hunks_from(f, 0) <= usize::MAX
            },
            (Err(error), Err(e)) => error.deep_view() == e,
            _ => false,
        },
{
    let chars = text::to_chars(diff);
    let lines = text::lines(chars.as_slice());
    let ghost all = text::views(lines@);
    let mut scan = DiffScan { files: Vec::new(), current: None };
    assert(scan.deep_view().files =~= Seq::empty());
    let count: usize = lines.len();
    let mut i: usize = 0;
    while i < count
        invariant
            i <= count,
            count == lines@.len(),
            all == text::views(lines@),
            all == text::lines_of(diff@),
            scan.deep_view().within(i as int),
            diff_from(all, 0, DiffScanModel::begin()) == diff_from(
                all,
                i as int,
                scan.deep_view(),
            ),
        decreases count - i,
    {
        assert(all[i as int] == lines@[i as int]@);
        proof {
            open_file_is_within(scan.deep_view(), i as int);
            line_stays_within(scan.deep_view(), all[i as int], i as int);
        }
        match scan.line(lines[i]) {
            Ok(_) => {},
            Err(error) => {
                return Err(error);
            },
        }
        i += 1;
    }
    let ghost end = scan.deep_view();
    let mut files = scan.files;
    match scan.current {
        Some(builder) => list::push(&mut files, builder.finish()),
        None => {},
    }
    assert(files.deep_view() == end.all_files());
    Ok(files)
}

impl DeltaSummaryModel {
    /// With one more file.
    pub open spec fn with(self, file: FileDeltaModel) -> DeltaSummaryModel {
        DeltaSummaryModel {
            files_changed: self.files_changed + 1,
            files_added: self.files_added + (if file.change_kind == ChangeKind::Added {
                1nat
            } else {
                0nat
            }),
            files_deleted: self.files_deleted + (if file.change_kind == ChangeKind::Deleted {
                1nat
            } else {
                0nat
            }),
            files_renamed: self.files_renamed + (if file.change_kind == ChangeKind::Renamed {
                1nat
            } else {
                0nat
            }),
            binary_files: self.binary_files + (if file.is_binary {
                1nat
            } else {
                0nat
            }),
            additions: self.additions + file.additions,
            deletions: self.deletions + file.deletions,
        }
    }

    pub open spec fn zero() -> DeltaSummaryModel {
        DeltaSummaryModel {
            files_changed: 0,
            files_added: 0,
            files_deleted: 0,
            files_renamed: 0,
            binary_files: 0,
            additions: 0,
            deletions: 0,
        }
    }
}

/// The summary with the files from `i` on.
pub open spec fn summary_from(
    files: Seq<FileDeltaModel>,
    i: int,
    summary: DeltaSummaryModel,
) -> DeltaSummaryModel
    decreases files.len() - i,
{
    if i < 0 || i >= files.len() {
        summary
    } else {
        summary_from(files, i + 1, summary.with(files[i]))
    }
}

pub open spec fn summary_of(files: Seq<FileDeltaModel>) -> DeltaSummaryModel {
    summary_from(files, 0, DeltaSummaryModel::zero())
}

fn summarize(files: &Vec<FileDelta>) -> (r: DeltaSummary)
    requires
        additions_from(files.deep_view(), 0) <= u64::MAX,
        deletions_from(files.deep_view(), 0) <= u64::MAX,
    ensures
        r.deep_view() == summary_of(files.deep_view()),
{
    let ghost all = files.deep_view();
    let mut summary = DeltaSummary {
        files_changed: 0,
        files_added: 0,
        files_deleted: 0,
        files_renamed: 0,
        binary_files: 0,
        additions: 0,
        deletions: 0,
    };
    let count: usize = files.len();
    let mut i: usize = 0;
    while i < count
        invariant
            i <= count,
            count == files@.len(),
            all == files.deep_view(),
            summary.files_changed == i,
            summary.files_added <= i,
            summary.files_deleted <= i,
            summary.files_renamed <= i,
            summary.binary_files <= i,
            summary.additions + additions_from(all, i as int) <= u64::MAX,
            summary.deletions + deletions_from(all, i as int) <= u64::MAX,
            summary_of(all) == summary_from(all, i as int, summary.deep_view()),
        decreases count - i,
    {
        let file = &files[i];
        assert(all[i as int] == file.deep_view());
        summary.files_changed = summary.files_changed + 1;
        match file.change_kind {
            ChangeKind::Added => summary.files_added = summary.files_added + 1,
            ChangeKind::Deleted => summary.files_deleted = summary.files_deleted + 1,
            ChangeKind::Renamed => summary.files_renamed = summary.files_renamed + 1,
            ChangeKind::Modified => {},
        }
        if file.is_binary {
            summary.binary_files = summary.binary_files + 1;
        }
        summary.additions = summary.additions + file.additions;
        summary.deletions = summary.deletions + file.deletions;
        i += 1;
    }
    summary
}

/// How many of a file's hunks are kept where `remaining` may still be kept.
pub open spec fn retained(hunks: nat, remaining: nat) -> nat {
    let file = if hunks < MAX_HUNKS_PER_FILE {
        hunks
    } else {
        MAX_HUNKS_PER_FILE as nat
    };
    if file < remaining {
        file
    } else {
        remaining
    }
}

/// The files from `i` on, with no more hunks than the limits allow.
pub open spec fn trimmed_from(files: Seq<FileDeltaModel>, i: int, remaining: nat) -> Seq<
    FileDeltaModel,
>
    decreases files.len() - i,
{
    if i < 0 || i >= files.len() {
        seq![]
    } else {
        let kept = retained(files[i].hunks.len(), remaining);
        seq![FileDeltaModel { hunks: files[i].hunks.take(kept as int), ..files[i] }]
            + trimmed_from(files, i + 1, (remaining - kept) as nat)
    }
}

/// How many hunks of the files from `i` on are left out.
pub open spec fn dropped_from(files: Seq<FileDeltaModel>, i: int, remaining: nat) -> nat
    decreases files.len() - i,
{
    if i < 0 || i >= files.len() {
        0
    } else {
        let kept = retained(files[i].hunks.len(), remaining);
        (files[i].hunks.len() - kept) as nat + dropped_from(
            files,
            i + 1,
            (remaining - kept) as nat,
        )
    }
}

fn bound_hunks(files: &mut Vec<FileDelta>) -> (r: u64)
    requires
        hunks_from(old(files).deep_view(), 0) <= u64::MAX,
    ensures
        final(files).deep_view() == trimmed_from(
            old(files).deep_view(),
            0,
            MAX_HUNKS_TOTAL as nat,
        ),
        r == dropped_from(old(files).deep_view(), 0, MAX_HUNKS_TOTAL as nat),
{
    let ghost all = files.deep_view();
    let mut remaining: usize = MAX_HUNKS_TOTAL;
    let mut omitted: u64 = 0;
    let mut i: usize = 0;
    while i < files.len()
        invariant
            i <= files@.len(),
            all == old(files).deep_view(),
            files@.len() == all.len(),
            omitted + hunks_from(all, i as int) <= u64::MAX,
            forall|k: int| i <= k < all.len() ==> files@[k].deep_view() == all[k],
            trimmed_from(all, 0, MAX_HUNKS_TOTAL as nat) =~= files.deep_view().take(i as int)
                + trimmed_from(all, i as int, remaining as nat),
            dropped_from(all, 0, MAX_HUNKS_TOTAL as nat) == omitted + dropped_from(
                all,
                i as int,
                remaining as nat,
            ),
        decreases files@.len() - i,
    {
        let ghost before = files@;
        let hunks: usize = files[i].hunks.len();
        assert(all[i as int].hunks.len() == hunks);
        let mut kept: usize = hunks;
        if kept > MAX_HUNKS_PER_FILE {
            kept = MAX_HUNKS_PER_FILE;
        }
        if kept > remaining {
            kept = remaining;
        }
        omitted = omitted + (hunks - kept) as u64;
        files[i].hunks.truncate(kept);
        assert(files@[i as int].deep_view().hunks =~= all[i as int].hunks.take(kept as int));
        assert(files.deep_view().take(i + 1) =~= files.deep_view().take(i as int).push(
            files@[i as int].deep_view(),
        ));
        assert(files.deep_view().take(i as int) =~= Seq::new(
            before.len(),
            |k: int| before[k].deep_view(),
        ).take(i as int));
        remaining = remaining - kept;
        i += 1;
    }
    assert(files.deep_view().take(i as int) =~= files.deep_view());
    assert(files.deep_view() =~= trimmed_from(all, 0, MAX_HUNKS_TOTAL as nat));
    omitted
}

/// How raw bytes are named once they are kept: by their digest.
pub open spec fn artifact_of(raw: Seq<u8>) -> RawArtifactModel {
    RawArtifactModel {
        uri: "artifact://delta/"@ + digest::sha256_hex(raw) + "/raw-output"@,
        sha256: digest::sha256_hex(raw),
        bytes: raw.len(),
    }
}

/// How raw bytes are named once they are kept.
pub fn raw_artifact(raw: &[u8]) -> (r: RawArtifact)
    ensures
        r.deep_view() == artifact_of(raw@),
{
    let hash = digest::sha256_text(raw);
    let start = text::concat("artifact://delta/", hash.as_str());
    let uri = text::concat(start.as_str(), "/raw-output");
    RawArtifact { uri, sha256: hash, bytes: raw.len() as u64 }
}

/// The first items of a list, up to a limit.
pub open spec fn limited<T>(items: Seq<T>, max: nat) -> Seq<T> {
    if items.len() <= max {
        items
    } else {
        items.take(max as int)
    }
}

/// How many items a limit leaves out.
pub open spec fn excess(count: nat, max: nat) -> nat {
    if count <= max {
        0
    } else {
        (count - max) as nat
    }
}

/// The pack of the files of a diff.
pub open spec fn delta_pack(files: Seq<FileDeltaModel>, raw: Seq<u8>) -> DeltaPackModel {
    let trimmed = trimmed_from(files, 0, MAX_HUNKS_TOTAL as nat);
    let omitted_hunks = dropped_from(files, 0, MAX_HUNKS_TOTAL as nat);
    let omitted_files = excess(files.len(), MAX_FILES as nat);
    DeltaPackModel {
        schema: "cabal.delta_pack.v2"@,
        operation: "git-diff"@,
        verdict: if files.len() == 0 {
            DeltaVerdict::Clean
        } else {
            DeltaVerdict::Changed
        },
        files: limited(trimmed, MAX_FILES as nat),
        summary: summary_of(files),
        completeness: if omitted_files == 0 && omitted_hunks == 0 {
            "all supported unified-diff file boundaries, hunk ranges, statuses, and patch-line counts retained"@
        } else {
            "bounded projection; omitted file or hunk counts are reported"@
        },
        omitted_files,
        omitted_hunks,
        raw_artifact: artifact_of(raw),
    }
}

/// The pack of a diff. Output that is not blank and holds no file is refused.
pub open spec fn delta_of(raw: Seq<u8>) -> Result<DeltaPackModel, DeltaErrorModel> {
    if !vstd::utf8::valid_utf8(raw) {
        Err(DeltaErrorModel::InvalidUtf8(text::utf8_error(raw)))
    } else {
        let diff = vstd::utf8::decode_utf8(raw);
        match files_in(diff) {
            Ok(files) => if text::trimmed(diff).len() > 0 && files.len() == 0 {
                Err(
                    DeltaErrorModel::MalformedDiffHeader(
                        "non-empty output contained no diff header"@,
                    ),
                )
            } else {
                Ok(delta_pack(files, raw))
            },
            Err(error) => Err(error),
        }
    }
}

proof fn trimmed_keeps_count(files: Seq<FileDeltaModel>, i: int, remaining: nat)
    requires
        0 <= i <= files.len(),
    ensures
        trimmed_from(files, i, remaining).len() == files.len() - i,
    decreases files.len() - i,
{
    if i < files.len() {
        let kept = retained(files[i].hunks.len(), remaining);
        trimmed_keeps_count(files, i + 1, (remaining - kept) as nat);
    }
}

/// Normalizes a unified diff into a pack.
pub fn normalize_bytes(raw: &[u8]) -> (r: Result<DeltaPack, DeltaError>)
    ensures
        match (r, delta_of(raw@)) {
            (Ok(pack), Ok(p)) => pack.deep_view() == p,
            (Err(error), Err(e)) => error.deep_view() == e,
            _ => false,
        },
{
    let diff = match text::decode(raw) {
        Ok(diff) => diff,
        Err(message) => {
            return Err(DeltaError::InvalidUtf8(message));
        },
    };
    let mut files = match parse_unified_diff(diff.as_str()) {
        Ok(files) => files,
        Err(error) => {
            return Err(error);
        },
    };
    let ghost all = files.deep_view();
    let chars = text::to_chars(diff.as_str());
    if text::trim(chars.as_slice()).len() > 0 && files.len() == 0 {
        return Err(
            DeltaError::MalformedDiffHeader(
                text::copy("non-empty output contained no diff header"),
            ),
        );
    }
    let summary = summarize(&files);
    let omitted_hunks = bound_hunks(&mut files);
    proof {
        trimmed_keeps_count(all, 0, MAX_HUNKS_TOTAL as nat);
    }
    let count: usize = files.len();
    let verdict = if count == 0 {
        DeltaVerdict::Clean
    } else {
        DeltaVerdict::Changed
    };
    let mut omitted_files: u64 = 0;
    if count > MAX_FILES {
        let ghost trimmed = files.deep_view();
        omitted_files = (count - MAX_FILES) as u64;
        files.truncate(MAX_FILES);
        assert(files.deep_view() =~= trimmed.take(MAX_FILES as int));
    }
    let completeness = if omitted_files == 0 && omitted_hunks == 0 {
        text::copy(
            "all supported unified-diff file boundaries, hunk ranges, statuses, and patch-line counts retained",
        )
    } else {
        text::copy("bounded projection; omitted file or hunk counts are reported")
    };
    Ok(
        DeltaPack {
            schema: text::copy("cabal.delta_pack.v2"),
            operation: text::copy("git-diff"),
            verdict,
            files,
            summary,
            completeness,
            omitted_files,
            omitted_hunks,
            raw_artifact: raw_artifact(raw),
        },
    )
}

/// The status that a porcelain code stands for.
pub open spec fn kind_of(code: char) -> Option<StatusKind> {
    if code == '.' {
        None
    } else if code == 'A' {
        Some(StatusKind::Added)
    } else if code == 'M' {
        Some(StatusKind::Modified)
    } else if code == 'D' {
        Some(StatusKind::Deleted)
    } else if code == 'R' {
        Some(StatusKind::Renamed)
    } else if code == 'C' {
        Some(StatusKind::Copied)
    } else if code == 'T' {
        Some(StatusKind::TypeChanged)
    } else if code == 'U' {
        Some(StatusKind::Unmerged)
    } else {
        Some(StatusKind::Unknown)
    }
}

/// The entry with the codes `xy`; a missing code is that of no change.
pub open spec fn entry_of(
    xy: Seq<char>,
    path: Seq<char>,
    original_path: Option<Seq<char>>,
) -> Result<StatusEntryModel, DeltaErrorModel> {
    if xy.len() > 2 {
        Err(DeltaErrorModel::MalformedStatus(xy))
    } else {
        Ok(
            StatusEntryModel {
                path,
                original_path,
                index_status: if xy.len() > 0 {
                    kind_of(xy[0])
                } else {
                    None
                },
                worktree_status: if xy.len() > 1 {
                    kind_of(xy[1])
                } else {
                    None
                },
                untracked: false,
                classification: classification_of(path),
            },
        )
    }
}

/// What one record stands for, and how many records it takes. The record behind
/// it is given where there is one.
pub enum RecordModel {
    /// Nothing to report.
    Skipped,
    Entry(StatusEntryModel, int),
    Malformed(DeltaErrorModel),
}

pub open spec fn entry_record(
    entry: Result<StatusEntryModel, DeltaErrorModel>,
    taken: int,
) -> RecordModel {
    match entry {
        Ok(entry) => RecordModel::Entry(entry, taken),
        Err(error) => RecordModel::Malformed(error),
    }
}

/// A record of porcelain v2 status: `?` untracked, `1` changed, `2` renamed or
/// copied with its former path in the record behind it, `u` unmerged, `!` ignored.
pub open spec fn record_of(record: Seq<char>, following: Option<Seq<char>>) -> RecordModel {
    let malformed = RecordModel::Malformed(DeltaErrorModel::MalformedStatus(record));
    if record.len() == 0 {
        RecordModel::Skipped
    } else if text::begins(record, "? "@) {
        let path = text::after_prefix(record, "? "@)->0;
        RecordModel::Entry(
            StatusEntryModel {
                path,
                original_path: None,
                index_status: None,
                worktree_status: None,
                untracked: true,
                classification: classification_of(path),
            },
            1,
        )
    } else if text::begins(record, "1 "@) {
        let fields = text::pieces_upto(record, ' ', 9);
        if fields.len() != 9 {
            malformed
        } else {
            entry_record(entry_of(fields[1], fields[8], None), 1)
        }
    } else if text::begins(record, "2 "@) {
        let fields = text::pieces_upto(record, ' ', 10);
        if fields.len() != 10 {
            malformed
        } else {
            match following {
                Some(original) => if original.len() == 0 {
                    malformed
                } else {
                    entry_record(entry_of(fields[1], fields[9], Some(original)), 2)
                },
                None => malformed,
            }
        }
    } else if text::begins(record, "u "@) {
        let fields = text::pieces_upto(record, ' ', 11);
        if fields.len() != 11 {
            malformed
        } else {
            match entry_of(fields[1], fields[10], None) {
                Ok(entry) => RecordModel::Entry(
                    StatusEntryModel {
                        index_status: Some(StatusKind::Unmerged),
                        worktree_status: Some(StatusKind::Unmerged),
                        ..entry
                    },
                    1,
                ),
                Err(error) => RecordModel::Malformed(error),
            }
        }
    } else if text::begins(record, "! "@) {
        RecordModel::Skipped
    } else {
        malformed
    }
}

pub open spec fn following_of(records: Seq<Seq<char>>, i: int) -> Option<Seq<char>> {
    if i + 1 < records.len() {
        Some(records[i + 1])
    } else {
        None
    }
}

/// The entries of the records from `i` on.
pub open spec fn entries_from(
    records: Seq<Seq<char>>,
    i: int,
    entries: Seq<StatusEntryModel>,
) -> Result<Seq<StatusEntryModel>, DeltaErrorModel>
    decreases records.len() - i,
{
    if i < 0 || i >= records.len() {
        Ok(entries)
    } else {
        match record_of(records[i], following_of(records, i)) {
            RecordModel::Skipped => entries_from(records, i + 1, entries),
            RecordModel::Entry(entry, taken) => if taken == 2 {
                entries_from(records, i + 2, entries.push(entry))
            } else {
                entries_from(records, i + 1, entries.push(entry))
            },
            RecordModel::Malformed(error) => Err(error),
        }
    }
}

/// The entries of captured status.
pub open spec fn entries_in(status: Seq<char>) -> Result<Seq<StatusEntryModel>, DeltaErrorModel> {
    entries_from(text::pieces(status, '\0'), 0, seq![])
}

pub open spec fn is_conflict(entry: StatusEntryModel) -> bool {
    entry.index_status == Some(StatusKind::Unmerged) || entry.worktree_status == Some(
        StatusKind::Unmerged,
    )
}

impl StatusSummaryModel {
    /// With one more entry.
    pub open spec fn with(self, entry: StatusEntryModel) -> StatusSummaryModel {
        StatusSummaryModel {
            files_changed: self.files_changed + 1,
            staged: self.staged + (if entry.index_status is Some {
                1nat
            } else {
                0nat
            }),
            unstaged: self.unstaged + (if entry.worktree_status is Some {
                1nat
            } else {
                0nat
            }),
            untracked: self.untracked + (if entry.untracked {
                1nat
            } else {
                0nat
            }),
            conflicts: self.conflicts + (if is_conflict(entry) {
                1nat
            } else {
                0nat
            }),
        }
    }

    pub open spec fn zero() -> StatusSummaryModel {
        StatusSummaryModel { files_changed: 0, staged: 0, unstaged: 0, untracked: 0, conflicts: 0 }
    }
}

/// The summary with the entries from `i` on.
pub open spec fn status_from(
    entries: Seq<StatusEntryModel>,
    i: int,
    summary: StatusSummaryModel,
) -> StatusSummaryModel
    decreases entries.len() - i,
{
    if i < 0 || i >= entries.len() {
        summary
    } else {
        status_from(entries, i + 1, summary.with(entries[i]))
    }
}

pub open spec fn status_summary(entries: Seq<StatusEntryModel>) -> StatusSummaryModel {
    status_from(entries, 0, StatusSummaryModel::zero())
}

/// The pack of the entries of captured status.
pub open spec fn status_pack(entries: Seq<StatusEntryModel>, raw: Seq<u8>) -> GitStatusPackModel {
    let omitted_files = excess(entries.len(), MAX_FILES as nat);
    GitStatusPackModel {
        entries: limited(entries, MAX_FILES as nat),
        summary: status_summary(entries),
        completeness: if omitted_files == 0 {
            "all porcelain-v2 status entries retained"@
        } else {
            "bounded projection; omitted status entry count is reported"@
        },
        omitted_files,
        raw_artifact: artifact_of(raw),
    }
}

/// The pack of captured status.
pub open spec fn status_of(raw: Seq<u8>) -> Result<GitStatusPackModel, DeltaErrorModel> {
    if !vstd::utf8::valid_utf8(raw) {
        Err(DeltaErrorModel::InvalidUtf8(text::utf8_error(raw)))
    } else {
        match entries_in(vstd::utf8::decode_utf8(raw)) {
            Ok(entries) => Ok(status_pack(entries, raw)),
            Err(error) => Err(error),
        }
    }
}

fn status_kind(code: char) -> (r: Option<StatusKind>)
    ensures
        r == kind_of(code),
{
    if code == '.' {
        None
    } else if code == 'A' {
        Some(StatusKind::Added)
    } else if code == 'M' {
        Some(StatusKind::Modified)
    } else if code == 'D' {
        Some(StatusKind::Deleted)
    } else if code == 'R' {
        Some(StatusKind::Renamed)
    } else if code == 'C' {
        Some(StatusKind::Copied)
    } else if code == 'T' {
        Some(StatusKind::TypeChanged)
    } else if code == 'U' {
        Some(StatusKind::Unmerged)
    } else {
        Some(StatusKind::Unknown)
    }
}

fn status_entry(xy: &[char], path: &[char], original_path: Option<String>) -> (r: Result<
    StatusEntry,
    DeltaError,
>)
    ensures
        match (r, entry_of(xy@, path@, original_path.deep_view())) {
            (Ok(entry), Ok(e)) => entry.deep_view() == e,
            (Err(error), Err(e)) => error.deep_view() == e,
            _ => false,
        },
{
    if xy.len() > 2 {
        return Err(DeltaError::MalformedStatus(text::to_text(xy)));
    }
    let index_status = if xy.len() > 0 {
        status_kind(xy[0])
    } else {
        None
    };
    let worktree_status = if xy.len() > 1 {
        status_kind(xy[1])
    } else {
        None
    };
    let path = text::to_text(path);
    let classification = classify_path(path.as_str());
    Ok(
        StatusEntry {
            path,
            original_path,
            index_status,
            worktree_status,
            untracked: false,
            classification,
        },
    )
}

/// What one record stands for.
#[derive(Debug, PartialEq, Eq)]
pub enum Record {
    Skipped,
    Entry(StatusEntry, usize),
    Malformed(DeltaError),
}

impl DeepView for Record {
    type V = RecordModel;

    open spec fn deep_view(&self) -> RecordModel {
        match self {
            Record::Skipped => RecordModel::Skipped,
            Record::Entry(entry, taken) => RecordModel::Entry(entry.deep_view(), *taken as int),
            Record::Malformed(error) => RecordModel::Malformed(error.deep_view()),
        }
    }
}

fn as_record(entry: Result<StatusEntry, DeltaError>, taken: usize) -> (r: Record)
    ensures
        r.deep_view() == (match entry {
            Ok(entry) => RecordModel::Entry(entry.deep_view(), taken as int),
            Err(error) => RecordModel::Malformed(error.deep_view()),
        }),
{
    match entry {
        Ok(entry) => Record::Entry(entry, taken),
        Err(error) => Record::Malformed(error),
    }
}

/// Reads one record.
pub fn read_record(record: &[char], following: Option<&[char]>) -> (r: Record)
    ensures
        r.deep_view() == record_of(
            record@,
            match following {
                Some(following) => Some(following@),
                None => None,
            },
        ),
{
    if record.len() == 0 {
        return Record::Skipped;
    }
    match text::strip_prefix(record, "? ") {
        Some(path) => {
            let path = text::to_text(path);
            let classification = classify_path(path.as_str());
            return Record::Entry(
                StatusEntry {
                    path,
                    original_path: None,
                    index_status: None,
                    worktree_status: None,
                    untracked: true,
                    classification,
                },
                1,
            );
        },
        None => {},
    }
    if text::starts_with(record, "1 ") {
        let fields = text::split_upto(record, ' ', 9);
        let ghost all = text::views(fields@);
        if fields.len() != 9 {
            return Record::Malformed(DeltaError::MalformedStatus(text::to_text(record)));
        }
        assert(all[1] == fields@[1]@ && all[8] == fields@[8]@);
        as_record(status_entry(fields[1], fields[8], None), 1)
    } else if text::starts_with(record, "2 ") {
        let fields = text::split_upto(record, ' ', 10);
        let ghost all = text::views(fields@);
        if fields.len() != 10 {
            return Record::Malformed(DeltaError::MalformedStatus(text::to_text(record)));
        }
        assert(all[1] == fields@[1]@ && all[9] == fields@[9]@);
        match following {
            Some(original) => {
                if original.len() == 0 {
                    return Record::Malformed(DeltaError::MalformedStatus(text::to_text(record)));
                }
                let original = Some(text::to_text(original));
                as_record(status_entry(fields[1], fields[9], original), 2)
            },
            None => Record::Malformed(DeltaError::MalformedStatus(text::to_text(record))),
        }
    } else if text::starts_with(record, "u ") {
        let fields = text::split_upto(record, ' ', 11);
        let ghost all = text::views(fields@);
        if fields.len() != 11 {
            return Record::Malformed(DeltaError::MalformedStatus(text::to_text(record)));
        }
        assert(all[1] == fields@[1]@ && all[10] == fields@[10]@);
        match status_entry(fields[1], fields[10], None) {
            Ok(entry) => {
                let mut entry = entry;
                entry.index_status = Some(StatusKind::Unmerged);
                entry.worktree_status = Some(StatusKind::Unmerged);
                Record::Entry(entry, 1)
            },
            Err(error) => Record::Malformed(error),
        }
    } else if text::starts_with(record, "! ") {
        Record::Skipped
    } else {
        Record::Malformed(DeltaError::MalformedStatus(text::to_text(record)))
    }
}

fn summarize_status(entries: &Vec<StatusEntry>) -> (r: StatusSummary)
    ensures
        r.deep_view() == status_summary(entries.deep_view()),
{
    let ghost all = entries.deep_view();
    let mut summary = StatusSummary {
        files_changed: 0,
        staged: 0,
        unstaged: 0,
        untracked: 0,
        conflicts: 0,
    };
    let count: usize = entries.len();
    let mut i: usize = 0;
    while i < count
        invariant
            i <= count,
            count == entries@.len(),
            all == entries.deep_view(),
            summary.files_changed == i,
            summary.staged <= i,
            summary.unstaged <= i,
            summary.untracked <= i,
            summary.conflicts <= i,
            status_summary(all) == status_from(all, i as int, summary.deep_view()),
        decreases count - i,
    {
        let entry = &entries[i];
        assert(all[i as int] == entry.deep_view());
        summary.files_changed = summary.files_changed + 1;
        if entry.index_status.is_some() {
            summary.staged = summary.staged + 1;
        }
        if entry.worktree_status.is_some() {
            summary.unstaged = summary.unstaged + 1;
        }
        if entry.untracked {
            summary.untracked = summary.untracked + 1;
        }
        let conflict = match entry.index_status {
            Some(kind) => kind == StatusKind::Unmerged,
            None => false,
        } || match entry.worktree_status {
            Some(kind) => kind == StatusKind::Unmerged,
            None => false,
        };
        if conflict {
            summary.conflicts = summary.conflicts + 1;
        }
        i += 1;
    }
    summary
}

/// The entries of captured status.
pub fn parse_status(status: &str) -> (r: Result<Vec<StatusEntry>, DeltaError>)
    ensures
        match (r, entries_in(status@)) {
            (Ok(entries), Ok(e)) => entries.deep_view() == e,
            (Err(error), Err(e)) => error.deep_view() == e,
            _ => false,
        },
{
    let chars = text::to_chars(status);
    let records = text::split(chars.as_slice(), '\0');
    let ghost all = text::views(records@);
    let mut entries: Vec<StatusEntry> = Vec::new();
    assert(entries.deep_view() =~= Seq::empty());
    let count: usize = records.len();
    let mut i: usize = 0;
    while i < count
        invariant
            i <= count,
            count == records@.len(),
            all == text::views(records@),
            all == text::pieces(status@, '\0'),
            entries_from(all, 0, seq![]) == entries_from(all, i as int, entries.deep_view()),
        decreases count - i,
    {
        assert(all[i as int] == records@[i as int]@);
        let following = if i < count - 1 {
            assert(all[i + 1] == records@[i + 1]@);
            Some(records[i + 1])
        } else {
            None
        };
        match read_record(records[i], following) {
            Record::Skipped => {
                i += 1;
            },
            Record::Entry(entry, taken) => {
                list::push(&mut entries, entry);
                if taken == 2 {
                    assert(i + 1 < count);
                    i += 2;
                } else {
                    i += 1;
                }
            },
            Record::Malformed(error) => {
                return Err(error);
            },
        }
    }
    Ok(entries)
}

/// Normalizes captured status into a pack.
pub fn normalize_status_bytes(raw: &[u8]) -> (r: Result<GitStatusPack, DeltaError>)
    ensures
        match (r, status_of(raw@)) {
            (Ok(pack), Ok(p)) => pack.deep_view() == p,
            (Err(error), Err(e)) => error.deep_view() == e,
            _ => false,
        },
{
    let status = match text::decode(raw) {
        Ok(status) => status,
        Err(message) => {
            return Err(DeltaError::InvalidUtf8(message));
        },
    };
    let mut entries = match parse_status(status.as_str()) {
        Ok(entries) => entries,
        Err(error) => {
            return Err(error);
        },
    };
    let summary = summarize_status(&entries);
    let count: usize = entries.len();
    let mut omitted_files: u64 = 0;
    if count > MAX_FILES {
        let ghost all = entries.deep_view();
        omitted_files = (count - MAX_FILES) as u64;
        entries.truncate(MAX_FILES);
        assert(entries.deep_view() =~= all.take(MAX_FILES as int));
    }
    let completeness = if omitted_files == 0 {
        text::copy("all porcelain-v2 status entries retained")
    } else {
        text::copy("bounded projection; omitted status entry count is reported")
    };
    Ok(
        GitStatusPack {
            entries,
            summary,
            completeness,
            omitted_files,
            raw_artifact: raw_artifact(raw),
        },
    )
}

proof fn hunks_are_limited_from(files: Seq<FileDeltaModel>, i: int, remaining: nat)
    requires
        0 <= i <= files.len(),
    ensures
        ({
            let trimmed = trimmed_from(files, i, remaining);
            &&& trimmed.len() == files.len() - i
            &&& hunks_from(trimmed, 0) <= remaining
            &&& hunks_from(trimmed, 0) + dropped_from(files, i, remaining) == hunks_from(files, i)
            &&& forall|k: int|
                0 <= k < trimmed.len() ==> (#[trigger] trimmed[k]).hunks.len()
                    <= MAX_HUNKS_PER_FILE && trimmed[k].hunks == files[i + k].hunks.take(
                    trimmed[k].hunks.len() as int,
                )
        }),
    decreases files.len() - i,
{
    if i < files.len() {
        let kept = retained(files[i].hunks.len(), remaining);
        let rest = trimmed_from(files, i + 1, (remaining - kept) as nat);
        let first = FileDeltaModel { hunks: files[i].hunks.take(kept as int), ..files[i] };
        let trimmed = trimmed_from(files, i, remaining);
        hunks_are_limited_from(files, i + 1, (remaining - kept) as nat);
        assert(trimmed == seq![first] + rest);
        hunks_of_prepended(first, rest, 0);
        assert(hunks_from(trimmed, 0) == first.hunks.len() + hunks_from(trimmed, 1));
        assert forall|k: int| 0 <= k < trimmed.len() implies (#[trigger] trimmed[k]).hunks.len()
            <= MAX_HUNKS_PER_FILE && trimmed[k].hunks == files[i + k].hunks.take(
            trimmed[k].hunks.len() as int,
        ) by {
            if k > 0 {
                assert(trimmed[k] == rest[k - 1]);
            }
        }
    }
}

proof fn hunks_of_prepended(first: FileDeltaModel, rest: Seq<FileDeltaModel>, i: int)
    requires
        0 <= i <= rest.len(),
    ensures
        hunks_from(seq![first] + rest, i + 1) == hunks_from(rest, i),
    decreases rest.len() - i,
{
    let all = seq![first] + rest;
    if i < rest.len() {
        hunks_of_prepended(first, rest, i + 1);
        assert(all[i + 1] == rest[i]);
    }
}

/// The limits on hunks hold for every diff: no file keeps more than the limit per
/// file and all files together no more than the total, what is kept of a file is
/// the start of its hunks, and every hunk is kept or counted as left out.
pub proof fn hunks_are_limited(files: Seq<FileDeltaModel>)
    ensures
        ({
            let trimmed = trimmed_from(files, 0, MAX_HUNKS_TOTAL as nat);
            &&& trimmed.len() == files.len()
            &&& hunks_from(trimmed, 0) <= MAX_HUNKS_TOTAL
            &&& hunks_from(trimmed, 0) + dropped_from(files, 0, MAX_HUNKS_TOTAL as nat)
                == hunks_from(files, 0)
            &&& forall|k: int|
                0 <= k < trimmed.len() ==> (#[trigger] trimmed[k]).hunks.len()
                    <= MAX_HUNKS_PER_FILE && trimmed[k].hunks == files[k].hunks.take(
                    trimmed[k].hunks.len() as int,
                )
        }),
{
    hunks_are_limited_from(files, 0, MAX_HUNKS_TOTAL as nat);
}

proof fn summary_counts_from(files: Seq<FileDeltaModel>, i: int, summary: DeltaSummaryModel)
    requires
        0 <= i <= files.len(),
    ensures
        ({
            let end = summary_from(files, i, summary);
            &&& end.files_changed == summary.files_changed + files.len() - i
            &&& end.additions == summary.additions + additions_from(files, i)
            &&& end.deletions == summary.deletions + deletions_from(files, i)
        }),
    decreases files.len() - i,
{
    if i < files.len() {
        summary_counts_from(files, i + 1, summary.with(files[i]));
    }
}

proof fn status_counts_from(
    entries: Seq<StatusEntryModel>,
    i: int,
    summary: StatusSummaryModel,
)
    requires
        0 <= i <= entries.len(),
    ensures
        status_from(entries, i, summary).files_changed == summary.files_changed + entries.len()
            - i,
    decreases entries.len() - i,
{
    if i < entries.len() {
        status_counts_from(entries, i + 1, summary.with(entries[i]));
    }
}

/// A pack of a diff is bounded and says what it leaves out: its summary is that of
/// all files, and the files kept and left out are as many as the summary counts.
pub proof fn delta_packs_are_bounded(raw: Seq<u8>)
    ensures
        delta_of(raw) matches Ok(pack) ==> {
            &&& pack.files.len() <= MAX_FILES
            &&& pack.files.len() + pack.omitted_files == pack.summary.files_changed
            &&& forall|k: int|
                0 <= k < pack.files.len() ==> (#[trigger] pack.files[k]).hunks.len()
                    <= MAX_HUNKS_PER_FILE
        },
{
    match delta_of(raw) {
        Ok(pack) => {
            let files = files_in(vstd::utf8::decode_utf8(raw))->Ok_0;
            hunks_are_limited(files);
            summary_counts_from(files, 0, DeltaSummaryModel::zero());
        },
        Err(_) => {},
    }
}

/// A pack of captured status is bounded, and its entries kept and left out are as
/// many as its summary counts.
pub proof fn status_packs_are_bounded(raw: Seq<u8>)
    ensures
        status_of(raw) matches Ok(pack) ==> {
            &&& pack.entries.len() <= MAX_FILES
            &&& pack.entries.len() + pack.omitted_files == pack.summary.files_changed
        },
{
    match status_of(raw) {
        Ok(pack) => {
            let entries = entries_in(vstd::utf8::decode_utf8(raw))->Ok_0;
            status_counts_from(entries, 0, StatusSummaryModel::zero());
        },
        Err(_) => {},
    }
}

/// A diff is clean only where its text is blank.
pub proof fn only_blank_diffs_are_clean(raw: Seq<u8>)
    ensures
        delta_of(raw) matches Ok(pack) ==> (pack.verdict == DeltaVerdict::Clean ==> text::trimmed(
            vstd::utf8::decode_utf8(raw),
        ).len() == 0),
{
}

} // verus!
