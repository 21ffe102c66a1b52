//! The files and line changes of a proposed patch.

use vstd::prelude::*;
use crate::policy;
use crate::sorted;
use crate::text;

verus! {

/// The paths that a patch touches, in order and each once, and how many lines it
/// changes.
#[derive(Debug, PartialEq, Eq)]
pub struct ParsedPatch {
    pub paths: Vec<String>,
    pub line_changes: usize,
}

pub struct ParsedPatchModel {
    pub paths: Seq<Seq<char>>,
    pub line_changes: nat,
}

impl DeepView for ParsedPatch {
    type V = ParsedPatchModel;

    open spec fn deep_view(&self) -> ParsedPatchModel {
        ParsedPatchModel {
            paths: self.paths.deep_view(),
            line_changes: self.line_changes as nat,
        }
    }
}

impl ParsedPatchModel {
    pub open spec fn nothing() -> ParsedPatchModel {
        ParsedPatchModel { paths: seq![], line_changes: 0 }
    }

    pub open spec fn with_path(self, path: Seq<char>) -> ParsedPatchModel {
        ParsedPatchModel { paths: sorted::inserted(self.paths, path), ..self }
    }

    pub open spec fn with_change(self) -> ParsedPatchModel {
        ParsedPatchModel { line_changes: self.line_changes + 1, ..self }
    }
}

/// A part of a path that stays below the root: not empty, not `.` or `..`, and
/// without a drive.
pub open spec fn valid_part(part: Seq<char>) -> bool {
    part.len() > 0 && part != "."@ && part != ".."@ && !part.contains(':')
}

/// A relative path of at most `max` bytes that stays below the root, as far as its
/// text shows.
pub open spec fn valid_relative(path: Seq<char>, max: nat) -> bool {
    &&& path.len() > 0
    &&& text::byte_len(path) <= max
    &&& !path.contains('\0')
    &&& forall|i: int|
        0 <= i < text::pieces(text::slashed(path), '/').len() ==> valid_part(
            #[trigger] text::pieces(text::slashed(path), '/')[i],
        )
}

/// A path that a patch may name.
pub open spec fn valid_path(path: Seq<char>) -> bool {
    valid_relative(path, 4_096)
}

pub open spec fn refusal(code: Seq<char>, reason: Seq<char>) -> policy::RefusalModel {
    policy::RefusalModel { code, reason }
}

pub open spec fn malformed(reason: Seq<char>) -> policy::RefusalModel {
    refusal("malformed_patch"@, reason)
}

/// The path of a patch with `/` between its parts.
pub open spec fn patch_path(path: Seq<char>) -> Result<Seq<char>, policy::RefusalModel> {
    if valid_path(path) {
        Ok(text::slashed(path))
    } else {
        Err(refusal("invalid_path"@, "patch contains an invalid path"@))
    }
}

/// The path behind `--- ` or `+++ ` of a unified diff.
pub open spec fn diff_path(value: Seq<char>) -> Result<Seq<char>, policy::RefusalModel> {
    let value = text::pieces(value, '\t')[0];
    if value == "/dev/null"@ {
        Ok(value)
    } else {
        match text::after_prefix(value, "a/"@) {
            Some(path) => patch_path(path),
            None => match text::after_prefix(value, "b/"@) {
                Some(path) => patch_path(path),
                None => patch_path(value),
            },
        }
    }
}

/// A line that adds or removes, and is no header.
pub open spec fn changes_line(line: Seq<char>) -> bool {
    (text::begins(line, "+"@) || text::begins(line, "-"@)) && !text::begins(line, "+++ "@)
        && !text::begins(line, "--- "@)
}

/// What has been read of a patch in the `*** Begin Patch` form.
#[derive(Debug, PartialEq, Eq)]
pub struct PatchScan {
    pub parsed: ParsedPatch,
    pub current: bool,
    pub ended: bool,
    pub file_header_seen: bool,
    pub environment_id_seen: bool,
    pub in_update: bool,
}

pub struct PatchScanModel {
    pub parsed: ParsedPatchModel,
    pub current: bool,
    pub ended: bool,
    pub file_header_seen: bool,
    pub environment_id_seen: bool,
    pub in_update: bool,
}

impl DeepView for PatchScan {
    type V = PatchScanModel;

    open spec fn deep_view(&self) -> PatchScanModel {
        PatchScanModel {
            parsed: self.parsed.deep_view(),
            current: self.current,
            ended: self.ended,
            file_header_seen: self.file_header_seen,
            environment_id_seen: self.environment_id_seen,
            in_update: self.in_update,
        }
    }
}

/// The path of a file header.
pub open spec fn header_path(directive: Seq<char>) -> Option<Seq<char>> {
    match text::after_prefix(directive, "*** Update File: "@) {
        Some(path) => Some(path),
        None => match text::after_prefix(directive, "*** Add File: "@) {
            Some(path) => Some(path),
            None => text::after_prefix(directive, "*** Delete File: "@),
        },
    }
}

impl PatchScanModel {
    pub open spec fn begin() -> PatchScanModel {
        PatchScanModel {
            parsed: ParsedPatchModel::nothing(),
            current: false,
            ended: false,
            file_header_seen: false,
            environment_id_seen: false,
            in_update: false,
        }
    }

    /// The line as a directive. Within an update the white space at its start is
    /// content, unless it is the last line and ends the patch.
    pub open spec fn directive(self, line: Seq<char>, last: bool) -> Seq<char> {
        if self.in_update && !(last && text::trimmed(line) == "*** End Patch"@) {
            text::trimmed_end(line)
        } else {
            text::trimmed(line)
        }
    }

    /// After a line between the boundaries of the patch.
    pub open spec fn after_content(self, line: Seq<char>, directive: Seq<char>) -> Result<
        PatchScanModel,
        policy::RefusalModel,
    > {
        if text::begins(directive, "*** Environment ID: "@) {
            let id = text::after_prefix(directive, "*** Environment ID: "@)->0;
            if !self.current || self.file_header_seen || self.environment_id_seen || text::trimmed(
                id,
            ).len() == 0 || text::byte_len(id) > 256 {
                Err(malformed("patch has an invalid environment id"@))
            } else {
                Ok(PatchScanModel { environment_id_seen: true, ..self })
            }
        } else if header_path(directive) is Some {
            let path = header_path(directive)->0;
            if !self.current || path.len() == 0 {
                Err(malformed("patch has an invalid file header"@))
            } else {
                match patch_path(path) {
                    Ok(path) => Ok(
                        PatchScanModel {
                            parsed: self.parsed.with_path(path),
                            file_header_seen: true,
                            in_update: text::begins(directive, "*** Update File: "@),
                            ..self
                        },
                    ),
                    Err(refusal) => Err(refusal),
                }
            }
        } else if text::begins(directive, "*** Move to: "@) {
            let path = text::after_prefix(directive, "*** Move to: "@)->0;
            if !self.current || !self.file_header_seen || path.len() == 0 {
                Err(malformed("patch has an invalid move target"@))
            } else {
                match patch_path(path) {
                    Ok(path) => Ok(
                        PatchScanModel { parsed: self.parsed.with_path(path), ..self },
                    ),
                    Err(refusal) => Err(refusal),
                }
            }
        } else if text::begins(directive, "*** "@) {
            Err(malformed("patch has an unsupported directive"@))
        } else if self.current && changes_line(line) {
            Ok(PatchScanModel { parsed: self.parsed.with_change(), ..self })
        } else {
            Ok(self)
        }
    }

    /// After one more line.
    pub open spec fn after(self, line: Seq<char>, last: bool) -> Result<
        PatchScanModel,
        policy::RefusalModel,
    > {
        let trimmed = text::trimmed(line);
        let directive = self.directive(line, last);
        if trimmed == "*** Begin Patch"@ {
            if self.current || self.ended {
                Err(malformed("patch has an invalid boundary"@))
            } else {
                Ok(PatchScanModel { current: true, ..self })
            }
        } else if directive == "*** End Patch"@ {
            if !self.current || self.ended {
                Err(malformed("patch has an invalid boundary"@))
            } else {
                Ok(PatchScanModel { ended: true, ..self })
            }
        } else if self.ended {
            if trimmed.len() > 0 {
                Err(malformed("patch contains data after its boundary"@))
            } else {
                Ok(self)
            }
        } else {
            self.after_content(line, directive)
        }
    }
}

/// The patch in the `*** Begin Patch` form from line `i` on.
pub open spec fn apply_patch_from(lines: Seq<Seq<char>>, i: int, scan: PatchScanModel) -> Result<
    ParsedPatchModel,
    policy::RefusalModel,
>
    decreases lines.len() - i,
{
    if i < 0 || i >= lines.len() {
        if !scan.current || !scan.ended || scan.parsed.paths.len() == 0 {
            Err(malformed("patch has no supported file changes"@))
        } else {
            Ok(scan.parsed)
        }
    } else {
        match scan.after(lines[i], i + 1 == lines.len()) {
            Ok(next) => apply_patch_from(lines, i + 1, next),
            Err(refusal) => Err(refusal),
        }
    }
}

/// What has been read of a unified diff.
#[derive(Debug, PartialEq, Eq)]
pub struct DiffScan {
    pub parsed: ParsedPatch,
    /// The path of the file header that waits for its other half.
    pub old: Option<String>,
    pub seen_hunk: bool,
}

pub struct DiffScanModel {
    pub parsed: ParsedPatchModel,
    pub old: Option<Seq<char>>,
    pub seen_hunk: bool,
}

impl DeepView for DiffScan {
    type V = DiffScanModel;

    open spec fn deep_view(&self) -> DiffScanModel {
        DiffScanModel {
            parsed: self.parsed.deep_view(),
            old: self.old.deep_view(),
            seen_hunk: self.seen_hunk,
        }
    }
}

impl DiffScanModel {
    pub open spec fn begin() -> DiffScanModel {
        DiffScanModel { parsed: ParsedPatchModel::nothing(), old: None, seen_hunk: false }
    }

    /// After one more line.
    pub open spec fn after(self, line: Seq<char>) -> Result<DiffScanModel, policy::RefusalModel> {
        if text::begins(line, "--- "@) {
            if self.old is Some {
                Err(malformed("patch has unmatched file headers"@))
            } else {
                match diff_path(text::after_prefix(line, "--- "@)->0) {
                    Ok(path) => Ok(DiffScanModel { old: Some(path), ..self }),
                    Err(refusal) => Err(refusal),
                }
            }
        } else if text::begins(line, "+++ "@) {
            match diff_path(text::after_prefix(line, "+++ "@)->0) {
                Ok(new) => match self.old {
                    Some(old) => {
                        let first = if old == "/dev/null"@ {
                            self.parsed
                        } else {
                            self.parsed.with_path(old)
                        };
                        let second = if new == "/dev/null"@ {
                            first
                        } else {
                            first.with_path(new)
                        };
                        Ok(DiffScanModel { parsed: second, old: None, ..self })
                    },
                    None => Err(malformed("patch has unmatched file headers"@)),
                },
                Err(refusal) => Err(refusal),
            }
        } else if text::begins(line, "@@ "@) {
            if self.old is Some {
                Err(malformed("patch has an incomplete file pair"@))
            } else {
                Ok(DiffScanModel { seen_hunk: true, ..self })
            }
        } else if self.seen_hunk && changes_line(line) {
            Ok(DiffScanModel { parsed: self.parsed.with_change(), ..self })
        } else {
            Ok(self)
        }
    }
}

/// The unified diff from line `i` on.
pub open spec fn unified_from(lines: Seq<Seq<char>>, i: int, scan: DiffScanModel) -> Result<
    ParsedPatchModel,
    policy::RefusalModel,
>
    decreases lines.len() - i,
{
    if i < 0 || i >= lines.len() {
        if scan.old is Some || scan.parsed.paths.len() == 0 || !scan.seen_hunk {
            Err(malformed("patch has no supported file changes"@))
        } else {
            Ok(scan.parsed)
        }
    } else {
        match scan.after(lines[i]) {
            Ok(next) => unified_from(lines, i + 1, next),
            Err(refusal) => Err(refusal),
        }
    }
}

/// The paths and line changes of a patch, in whichever form it is.
pub open spec fn parsed_patch(patch: Seq<char>) -> Result<ParsedPatchModel, policy::RefusalModel> {
    let lines = text::lines_of(patch);
    if lines.len() > 0 && text::trimmed(lines[0]) == "*** Begin Patch"@ {
        apply_patch_from(lines, 0, PatchScanModel::begin())
    } else {
        unified_from(lines, 0, DiffScanModel::begin())
    }
}

fn refuse(code: &'static str, reason: &'static str) -> (r: policy::Refusal)
    ensures
        r.deep_view() == refusal(code@, reason@),
{
    policy::Refusal { code, reason }
}

fn is_valid_part(part: &[char]) -> (r: bool)
    ensures
        r == valid_part(part@),
{
    part.len() > 0 && !text::is(part, ".") && !text::is(part, "..") && !text::holds(part, ':')
}

/// A path that a patch may name.
pub fn validate_lexical_path(path: &str) -> (r: bool)
    ensures
        r == valid_path(path@),
{
    is_valid_relative(path, 4_096)
}

/// A relative path of at most `max` bytes stays below the root, as far as its text
/// shows.
pub fn is_valid_relative(path: &str, max: usize) -> (r: bool)
    ensures
        r == valid_relative(path@, max as nat),
{
    let chars = text::to_chars(path);
    if chars.len() == 0 || text::count_bytes(path) > max || text::holds(chars.as_slice(), '\0') {
        return false;
    }
    let portable = text::to_slashes(chars.as_slice());
    let parts = text::split(portable.as_slice(), '/');
    let ghost all = text::views(parts@);
    let mut i: usize = 0;
    while i < parts.len()
        invariant
            i <= parts@.len(),
            all == text::views(parts@),
            all == text::pieces(text::slashed(path@), '/'),
            forall|k: int| 0 <= k < i ==> valid_part(#[trigger] all[k]),
        decreases parts@.len() - i,
    {
        assert(all[i as int] == parts@[i as int]@);
        if !is_valid_part(parts[i]) {
            assert(!valid_part(text::pieces(text::slashed(path@), '/')[i as int]));
            return false;
        }
        i += 1;
    }
    true
}

fn normalize_patch_path(path: &[char]) -> (r: Result<String, policy::Refusal>)
    ensures
        match (r, patch_path(path@)) {
            (Ok(path), Ok(p)) => path@ == p,
            (Err(refusal), Err(e)) => refusal.deep_view() == e,
            _ => false,
        },
{
    let path = text::to_text(path);
    if !validate_lexical_path(path.as_str()) {
        return Err(refuse("invalid_path", "patch contains an invalid path"));
    }
    let slashes = text::to_slashes(text::to_chars(path.as_str()).as_slice());
    Ok(text::to_text(slashes.as_slice()))
}

fn normalize_diff_path(value: &[char]) -> (r: Result<String, policy::Refusal>)
    ensures
        match (r, diff_path(value@)) {
            (Ok(path), Ok(p)) => path@ == p,
            (Err(refusal), Err(e)) => refusal.deep_view() == e,
            _ => false,
        },
{
    let pieces = text::split(value, '\t');
    assert(text::views(pieces@)[0] == pieces@[0]@);
    let value = pieces[0];
    if text::is(value, "/dev/null") {
        return Ok(text::to_text(value));
    }
    match text::strip_prefix(value, "a/") {
        Some(path) => normalize_patch_path(path),
        None => match text::strip_prefix(value, "b/") {
            Some(path) => normalize_patch_path(path),
            None => normalize_patch_path(value),
        },
    }
}

fn is_line_change(line: &[char]) -> (r: bool)
    ensures
        r == changes_line(line@),
{
    (text::starts_with(line, "+") || text::starts_with(line, "-")) && !text::starts_with(
        line,
        "+++ ",
    ) && !text::starts_with(line, "--- ")
}

impl ParsedPatch {
    fn new() -> (r: ParsedPatch)
        ensures
            r.deep_view() == ParsedPatchModel::nothing(),
    {
        let r = ParsedPatch { paths: Vec::new(), line_changes: 0 };
        assert(r.deep_view().paths =~= Seq::empty());
        r
    }
}

fn read_header(directive: &[char]) -> (r: Option<&[char]>)
    ensures
        match r {
            Some(path) => header_path(directive@) == Some(path@),
            None => header_path(directive@) is None,
        },
{
    match text::strip_prefix(directive, "*** Update File: ") {
        Some(path) => Some(path),
        None => match text::strip_prefix(directive, "*** Add File: ") {
            Some(path) => Some(path),
            None => text::strip_prefix(directive, "*** Delete File: "),
        },
    }
}

impl PatchScan {
    fn content(&mut self, line: &[char], directive: &[char]) -> (r: Result<(), policy::Refusal>)
        requires
            old(self).parsed.line_changes < usize::MAX,
        ensures
            match (r, old(self).deep_view().after_content(line@, directive@)) {
                (Ok(_), Ok(next)) => final(self).deep_view() == next,
                (Err(refusal), Err(e)) => refusal.deep_view() == e,
                _ => false,
            },
    {
        match text::strip_prefix(directive, "*** Environment ID: ") {
            Some(id) => {
                let id_text = text::to_text(id);
                if !self.current || self.file_header_seen || self.environment_id_seen || text::trim(
                    id,
                ).len() == 0 || text::count_bytes(id_text.as_str()) > 256 {
                    return Err(refuse("malformed_patch", "patch has an invalid environment id"));
                }
                self.environment_id_seen = true;
                return Ok(());
            },
            None => {},
        }
        match read_header(directive) {
            Some(path) => {
                if !self.current || path.len() == 0 {
                    return Err(refuse("malformed_patch", "patch has an invalid file header"));
                }
                match normalize_patch_path(path) {
                    Ok(path) => {
                        sorted::insert(&mut self.parsed.paths, path);
                        self.file_header_seen = true;
                        self.in_update = text::starts_with(directive, "*** Update File: ");
                    },
                    Err(refusal) => {
                        return Err(refusal);
                    },
                }
                return Ok(());
            },
            None => {},
        }
        match text::strip_prefix(directive, "*** Move to: ") {
            Some(path) => {
                if !self.current || !self.file_header_seen || path.len() == 0 {
                    return Err(refuse("malformed_patch", "patch has an invalid move target"));
                }
                match normalize_patch_path(path) {
                    Ok(path) => sorted::insert(&mut self.parsed.paths, path),
                    Err(refusal) => {
                        return Err(refusal);
                    },
                }
                return Ok(());
            },
            None => {},
        }
        if text::starts_with(directive, "*** ") {
            return Err(refuse("malformed_patch", "patch has an unsupported directive"));
        }
        if self.current && is_line_change(line) {
            self.parsed.line_changes = self.parsed.line_changes + 1;
        }
        Ok(())
    }

    /// Reads one line; `last` says that no other follows.
    pub fn line(&mut self, line: &[char], last: bool) -> (r: Result<(), policy::Refusal>)
        requires
            old(self).parsed.line_changes < usize::MAX,
        ensures
            match (r, old(self).deep_view().after(line@, last)) {
                (Ok(_), Ok(next)) => final(self).deep_view() == next,
                (Err(refusal), Err(e)) => refusal.deep_view() == e,
                _ => false,
            },
    {
        let trimmed = text::trim(line);
        let final_end = last && text::is(trimmed, "*** End Patch");
        let directive = if self.in_update && !final_end {
            text::trim_end(line)
        } else {
            trimmed
        };
        if text::is(trimmed, "*** Begin Patch") {
            if self.current || self.ended {
                return Err(refuse("malformed_patch", "patch has an invalid boundary"));
            }
            self.current = true;
            Ok(())
        } else if text::is(directive, "*** End Patch") {
            if !self.current || self.ended {
                return Err(refuse("malformed_patch", "patch has an invalid boundary"));
            }
            self.ended = true;
            Ok(())
        } else if self.ended {
            if trimmed.len() > 0 {
                return Err(refuse("malformed_patch", "patch contains data after its boundary"));
            }
            Ok(())
        } else {
            self.content(line, directive)
        }
    }
}

fn parse_apply_patch(lines: &Vec<&[char]>) -> (r: Result<ParsedPatch, policy::Refusal>)
    ensures
        match (r, apply_patch_from(text::views(lines@), 0, PatchScanModel::begin())) {
            (Ok(parsed), Ok(p)) => parsed.deep_view() == p,
            (Err(refusal), Err(e)) => refusal.deep_view() == e,
            _ => false,
        },
{
    let ghost all = text::views(lines@);
    let mut scan = PatchScan {
        parsed: ParsedPatch::new(),
        current: false,
        ended: false,
        file_header_seen: false,
        environment_id_seen: false,
        in_update: false,
    };
    let count: usize = lines.len();
    let mut i: usize = 0;
    while i < count
        invariant
            i <= count,
            count == lines@.len(),
            all == text::views(lines@),
            scan.parsed.line_changes <= i,
            apply_patch_from(all, 0, PatchScanModel::begin()) == apply_patch_from(
                all,
                i as int,
                scan.deep_view(),
            ),
        decreases count - i,
    {
        assert(all[i as int] == lines@[i as int]@);
        let ghost before = scan.deep_view();
        match scan.line(lines[i], i == count - 1) {
            Ok(_) => {},
            Err(refusal) => {
                return Err(refusal);
            },
        }
        assert(scan.deep_view().parsed.line_changes <= before.parsed.line_changes + 1);
        i += 1;
    }
    if !scan.current || !scan.ended || scan.parsed.paths.len() == 0 {
        return Err(refuse("malformed_patch", "patch has no supported file changes"));
    }
    Ok(scan.parsed)
}

impl DiffScan {
    /// Reads one line.
    pub fn line(&mut self, line: &[char]) -> (r: Result<(), policy::Refusal>)
        requires
            old(self).parsed.line_changes < usize::MAX,
        ensures
            match (r, old(self).deep_view().after(line@)) {
                (Ok(_), Ok(next)) => final(self).deep_view() == next,
                (Err(refusal), Err(e)) => refusal.deep_view() == e,
                _ => false,
            },
    {
        match text::strip_prefix(line, "--- ") {
            Some(path) => {
                if self.old.is_some() {
                    return Err(refuse("malformed_patch", "patch has unmatched file headers"));
                }
                match normalize_diff_path(path) {
                    Ok(path) => {
                        self.old = Some(path);
                    },
                    Err(refusal) => {
                        return Err(refusal);
                    },
                }
                return Ok(());
            },
            None => {},
        }
        match text::strip_prefix(line, "+++ ") {
            Some(path) => {
                let new = match normalize_diff_path(path) {
                    Ok(new) => new,
                    Err(refusal) => {
                        return Err(refusal);
                    },
                };
                match self.old.take() {
                    Some(old) => {
                        if !text::same_text(old.as_str(), "/dev/null") {
                            sorted::insert(&mut self.parsed.paths, old);
                        }
                        if !text::same_text(new.as_str(), "/dev/null") {
                            sorted::insert(&mut self.parsed.paths, new);
                        }
                    },
                    None => {
                        return Err(refuse("malformed_patch", "patch has unmatched file headers"));
                    },
                }
                return Ok(());
            },
            None => {},
        }
        if text::starts_with(line, "@@ ") {
            if self.old.is_some() {
                return Err(refuse("malformed_patch", "patch has an incomplete file pair"));
            }
            self.seen_hunk = true;
        } else if self.seen_hunk && is_line_change(line) {
            self.parsed.line_changes = self.parsed.line_changes + 1;
        }
        Ok(())
    }
}

fn parse_unified_diff(lines: &Vec<&[char]>) -> (r: Result<ParsedPatch, policy::Refusal>)
    ensures
        match (r, unified_from(text::views(lines@), 0, DiffScanModel::begin())) {
            (Ok(parsed), Ok(p)) => parsed.deep_view() == p,
            (Err(refusal), Err(e)) => refusal.deep_view() == e,
            _ => false,
        },
{
    let ghost all = text::views(lines@);
    let mut scan = DiffScan { parsed: ParsedPatch::new(), old: None, seen_hunk: false };
    let count: usize = lines.len();
    let mut i: usize = 0;
    while i < count
        invariant
            i <= count,
            count == lines@.len(),
            all == text::views(lines@),
            scan.parsed.line_changes <= i,
            unified_from(all, 0, DiffScanModel::begin()) == unified_from(
                all,
                i as int,
                scan.deep_view(),
            ),
        decreases count - i,
    {
        assert(all[i as int] == lines@[i as int]@);
        let ghost before = scan.deep_view();
        match scan.line(lines[i]) {
            Ok(_) => {},
            Err(refusal) => {
                return Err(refusal);
            },
        }
        assert(scan.deep_view().parsed.line_changes <= before.parsed.line_changes + 1);
        i += 1;
    }
    if scan.old.is_some() || scan.parsed.paths.len() == 0 || !scan.seen_hunk {
        return Err(refuse("malformed_patch", "patch has no supported file changes"));
    }
    Ok(scan.parsed)
}

/// The paths and line changes of a patch, in whichever form it is.
pub fn parse_patch(patch: &str) -> (r: Result<ParsedPatch, policy::Refusal>)
    ensures
        match (r, parsed_patch(patch@)) {
            (Ok(parsed), Ok(p)) => parsed.deep_view() == p,
            (Err(refusal), Err(e)) => refusal.deep_view() == e,
            _ => false,
        },
{
    let chars = text::to_chars(patch);
    let lines = text::lines(chars.as_slice());
    let ghost all = text::views(lines@);
    if lines.len() > 0 {
        assert(all[0] == lines@[0]@);
        if text::is(text::trim(lines[0]), "*** Begin Patch") {
            return parse_apply_patch(&lines);
        }
    }
    parse_unified_diff(&lines)
}

/// No part of a path leaves the root.
pub open spec fn stays_below(path: Seq<char>) -> bool {
    forall|i: int|
        0 <= i < text::pieces(path, '/').len() ==> valid_part(#[trigger] text::pieces(path, '/')[i])
}

/// The paths of a patch are in order, each once, and none leaves the root.
pub open spec fn well_formed(parsed: ParsedPatchModel) -> bool {
    &&& sorted::increasing(parsed.paths)
    &&& forall|p: Seq<char>| #[trigger] parsed.paths.contains(p) ==> stays_below(p)
}

proof fn path_stays_well_formed(parsed: ParsedPatchModel, path: Seq<char>)
    requires
        well_formed(parsed),
        stays_below(path),
    ensures
        well_formed(parsed.with_path(path)),
{
    sorted::insertion_keeps_order(parsed.paths, path);
}

proof fn apply_patch_is_well_formed(lines: Seq<Seq<char>>, i: int, scan: PatchScanModel)
    requires
        well_formed(scan.parsed),
    ensures
        apply_patch_from(lines, i, scan) matches Ok(parsed) ==> well_formed(parsed),
    decreases lines.len() - i,
{
    if 0 <= i < lines.len() {
        let last = i + 1 == lines.len();
        let directive = scan.directive(lines[i], last);
        match header_path(directive) {
            Some(path) => {
                if valid_path(path) {
                    path_stays_well_formed(scan.parsed, text::slashed(path));
                }
            },
            None => {},
        }
        match text::after_prefix(directive, "*** Move to: "@) {
            Some(path) => {
                if valid_path(path) {
                    path_stays_well_formed(scan.parsed, text::slashed(path));
                }
            },
            None => {},
        }
        match scan.after(lines[i], last) {
            Ok(next) => {
                assert(well_formed(next.parsed));
                apply_patch_is_well_formed(lines, i + 1, next);
            },
            Err(_) => {},
        }
    }
}

/// A path of a unified diff that does not leave the root, or the mark of no file.
pub open spec fn named_path(path: Seq<char>) -> bool {
    path == "/dev/null"@ || stays_below(path)
}

proof fn unified_is_well_formed(lines: Seq<Seq<char>>, i: int, scan: DiffScanModel)
    requires
        well_formed(scan.parsed),
        scan.old matches Some(old) ==> named_path(old),
    ensures
        unified_from(lines, i, scan) matches Ok(parsed) ==> well_formed(parsed),
    decreases lines.len() - i,
{
    if 0 <= i < lines.len() {
        let line = lines[i];
        if text::begins(line, "+++ "@) && !text::begins(line, "--- "@) {
            let value = text::after_prefix(line, "+++ "@)->0;
            match (scan.old, diff_path(value)) {
                (Some(old), Ok(new)) => {
                    let first = if old == "/dev/null"@ {
                        scan.parsed
                    } else {
                        path_stays_well_formed(scan.parsed, old);
                        scan.parsed.with_path(old)
                    };
                    if new != "/dev/null"@ {
                        path_stays_well_formed(first, new);
                    }
                },
                _ => {},
            }
        }
        match scan.after(line) {
            Ok(next) => {
                unified_is_well_formed(lines, i + 1, next);
            },
            Err(_) => {},
        }
    }
}

/// The code and the reason are within their bounds as they are.
pub open spec fn short(refusal: policy::RefusalModel) -> bool {
    &&& text::byte_len(refusal.code) <= policy::MAX_CODE_BYTES
    &&& text::byte_len(refusal.reason) <= policy::MAX_REASON_BYTES
}

proof fn malformed_is_short(reason: Seq<char>)
    requires
        text::byte_len(reason) <= policy::MAX_REASON_BYTES,
    ensures
        short(malformed(reason)),
{
    reveal_strlit("malformed_patch");
    text::short_ascii_is_kept("malformed_patch"@, policy::MAX_CODE_BYTES as nat);
}

proof fn patch_path_refusals_are_short(path: Seq<char>)
    ensures
        patch_path(path) matches Err(refusal) ==> short(refusal),
{
    reveal_strlit("invalid_path");
    reveal_strlit("patch contains an invalid path");
    text::short_ascii_is_kept("invalid_path"@, policy::MAX_CODE_BYTES as nat);
    text::short_ascii_is_kept("patch contains an invalid path"@, policy::MAX_REASON_BYTES as nat);
}

proof fn patch_line_refusals_are_short(scan: PatchScanModel, line: Seq<char>, last: bool)
    ensures
        scan.after(line, last) matches Err(refusal) ==> short(refusal),
{
    let max = policy::MAX_REASON_BYTES as nat;
    let directive = scan.directive(line, last);
    reveal_strlit("patch has an invalid boundary");
    text::short_ascii_is_kept("patch has an invalid boundary"@, max);
    malformed_is_short("patch has an invalid boundary"@);
    reveal_strlit("patch contains data after its boundary");
    text::short_ascii_is_kept("patch contains data after its boundary"@, max);
    malformed_is_short("patch contains data after its boundary"@);
    reveal_strlit("patch has an invalid environment id");
    text::short_ascii_is_kept("patch has an invalid environment id"@, max);
    malformed_is_short("patch has an invalid environment id"@);
    reveal_strlit("patch has an invalid file header");
    text::short_ascii_is_kept("patch has an invalid file header"@, max);
    malformed_is_short("patch has an invalid file header"@);
    reveal_strlit("patch has an invalid move target");
    text::short_ascii_is_kept("patch has an invalid move target"@, max);
    malformed_is_short("patch has an invalid move target"@);
    reveal_strlit("patch has an unsupported directive");
    text::short_ascii_is_kept("patch has an unsupported directive"@, max);
    malformed_is_short("patch has an unsupported directive"@);
    match header_path(directive) {
        Some(path) => {
            patch_path_refusals_are_short(path);
        },
        None => {},
    }
    match text::after_prefix(directive, "*** Move to: "@) {
        Some(path) => {
            patch_path_refusals_are_short(path);
        },
        None => {},
    }
}

proof fn diff_path_refusals_are_short(value: Seq<char>)
    ensures
        diff_path(value) matches Err(refusal) ==> short(refusal),
{
    let value = text::pieces(value, '\t')[0];
    patch_path_refusals_are_short(value);
    match text::after_prefix(value, "a/"@) {
        Some(path) => {
            patch_path_refusals_are_short(path);
        },
        None => {},
    }
    match text::after_prefix(value, "b/"@) {
        Some(path) => {
            patch_path_refusals_are_short(path);
        },
        None => {},
    }
}

proof fn diff_line_refusals_are_short(scan: DiffScanModel, line: Seq<char>)
    ensures
        scan.after(line) matches Err(refusal) ==> short(refusal),
{
    let max = policy::MAX_REASON_BYTES as nat;
    reveal_strlit("patch has unmatched file headers");
    text::short_ascii_is_kept("patch has unmatched file headers"@, max);
    malformed_is_short("patch has unmatched file headers"@);
    reveal_strlit("patch has an incomplete file pair");
    text::short_ascii_is_kept("patch has an incomplete file pair"@, max);
    malformed_is_short("patch has an incomplete file pair"@);
    match text::after_prefix(line, "--- "@) {
        Some(value) => {
            diff_path_refusals_are_short(value);
        },
        None => {},
    }
    match text::after_prefix(line, "+++ "@) {
        Some(value) => {
            diff_path_refusals_are_short(value);
        },
        None => {},
    }
}

proof fn no_changes_is_short()
    ensures
        short(malformed("patch has no supported file changes"@)),
{
    reveal_strlit("patch has no supported file changes");
    text::short_ascii_is_kept(
        "patch has no supported file changes"@,
        policy::MAX_REASON_BYTES as nat,
    );
    malformed_is_short("patch has no supported file changes"@);
}

proof fn apply_patch_refusals_are_short(lines: Seq<Seq<char>>, i: int, scan: PatchScanModel)
    ensures
        apply_patch_from(lines, i, scan) matches Err(refusal) ==> short(refusal),
    decreases lines.len() - i,
{
    no_changes_is_short();
    if 0 <= i < lines.len() {
        let last = i + 1 == lines.len();
        patch_line_refusals_are_short(scan, lines[i], last);
        match scan.after(lines[i], last) {
            Ok(next) => {
                apply_patch_refusals_are_short(lines, i + 1, next);
            },
            Err(_) => {},
        }
    }
}

proof fn unified_refusals_are_short(lines: Seq<Seq<char>>, i: int, scan: DiffScanModel)
    ensures
        unified_from(lines, i, scan) matches Err(refusal) ==> short(refusal),
    decreases lines.len() - i,
{
    no_changes_is_short();
    if 0 <= i < lines.len() {
        diff_line_refusals_are_short(scan, lines[i]);
        match scan.after(lines[i]) {
            Ok(next) => {
                unified_refusals_are_short(lines, i + 1, next);
            },
            Err(_) => {},
        }
    }
}

/// Whatever a patch holds, the code and the reason of its refusal are within their
/// bounds.
pub proof fn refusals_are_short(patch: Seq<char>)
    ensures
        parsed_patch(patch) matches Err(refusal) ==> short(refusal),
{
    let lines = text::lines_of(patch);
    apply_patch_refusals_are_short(lines, 0, PatchScanModel::begin());
    unified_refusals_are_short(lines, 0, DiffScanModel::begin());
}

/// A patch that is read touches at least one path, and none of its paths leaves the
/// root as far as their text shows.
pub proof fn patch_paths_stay_below_the_root(patch: Seq<char>)
    ensures
        parsed_patch(patch) matches Ok(parsed) ==> well_formed(parsed) && parsed.paths.len() > 0,
{
    let lines = text::lines_of(patch);
    apply_patch_is_well_formed(lines, 0, PatchScanModel::begin());
    unified_is_well_formed(lines, 0, DiffScanModel::begin());
    apply_patch_has_paths(lines, 0, PatchScanModel::begin());
    unified_has_paths(lines, 0, DiffScanModel::begin());
}

proof fn apply_patch_has_paths(lines: Seq<Seq<char>>, i: int, scan: PatchScanModel)
    ensures
        apply_patch_from(lines, i, scan) matches Ok(parsed) ==> parsed.paths.len() > 0,
    decreases lines.len() - i,
{
    if 0 <= i < lines.len() {
        match scan.after(lines[i], i + 1 == lines.len()) {
            Ok(next) => {
                apply_patch_has_paths(lines, i + 1, next);
            },
            Err(_) => {},
        }
    }
}

proof fn unified_has_paths(lines: Seq<Seq<char>>, i: int, scan: DiffScanModel)
    ensures
        unified_from(lines, i, scan) matches Ok(parsed) ==> parsed.paths.len() > 0,
    decreases lines.len() - i,
{
    if 0 <= i < lines.len() {
        match scan.after(lines[i]) {
            Ok(next) => {
                unified_has_paths(lines, i + 1, next);
            },
            Err(_) => {},
        }
    }
}

} // verus!
