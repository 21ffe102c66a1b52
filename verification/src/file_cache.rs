//! Observations of bounded reads of UTF-8 text files, per session.

pub mod laws;

use vstd::prelude::*;
use crate::digest;
use crate::list;
use crate::order;
use crate::path;
use crate::text;

verus! {

broadcast use vstd::string::group_string_axioms;

pub const MAX_FILE_BYTES: u64 = 262_144;

pub const MAX_PATH_BYTES: usize = 4_096;

pub const MAX_SLICE_BYTES: usize = 65_536;

pub const MAX_SLICE_LINES: u64 = 400;

pub const MAX_CHANGED_RANGES: usize = 64;

pub const READ_ATTEMPTS: u64 = 3;

#[derive(Clone, Copy, Debug, PartialEq, Eq, Structural)]
pub enum RequestedRange {
    Full,
    Lines { start: u64, end: u64 },
}

#[derive(Clone, Copy, Debug, PartialEq, Eq, Structural)]
pub enum ObservationStatus {
    Content,
    Unchanged,
    Changed,
}

#[derive(Clone, Copy, Debug, PartialEq, Eq, Structural)]
pub struct ChangedRange {
    pub old_start: u64,
    pub old_lines: u64,
    pub new_start: u64,
    pub new_lines: u64,
}

/// Lines that a session has seen, both ends with them.
#[derive(Clone, Copy, Debug, PartialEq, Eq, Structural)]
pub struct ObservedRange {
    pub start: u64,
    pub end: u64,
}

#[derive(Clone, Debug, PartialEq, Eq)]
pub struct FileObservation {
    pub status: ObservationStatus,
    pub path: String,
    pub requested: RequestedRange,
    pub content: Option<String>,
    pub changed_ranges: Vec<ChangedRange>,
    pub omitted_changed_ranges: u64,
    pub completeness: String,
}

/// What a `FileObservation` says.
pub struct FileObservationModel {
    pub status: ObservationStatus,
    pub path: Seq<char>,
    pub requested: RequestedRange,
    pub content: Option<Seq<char>>,
    pub changed_ranges: Seq<ChangedRange>,
    pub omitted_changed_ranges: nat,
    pub completeness: Seq<char>,
}

impl DeepView for FileObservation {
    type V = FileObservationModel;

    open spec fn deep_view(&self) -> FileObservationModel {
        FileObservationModel {
            status: self.status,
            path: self.path@,
            requested: self.requested,
            content: self.content.deep_view(),
            changed_ranges: self.changed_ranges@,
            omitted_changed_ranges: self.omitted_changed_ranges as nat,
            completeness: self.completeness@,
        }
    }
}

/// What is kept of a file that a session has seen.
#[derive(Clone, Debug, PartialEq, Eq)]
pub struct CacheEntry {
    pub content_hash: String,
    pub snapshot: String,
    pub bytes: u64,
    pub modified_nanos: Option<u128>,
    pub observed: Vec<ObservedRange>,
}

/// What a `CacheEntry` says.
pub struct CacheEntryModel {
    pub content_hash: Seq<char>,
    pub snapshot: Seq<char>,
    pub bytes: u64,
    pub modified_nanos: Option<u128>,
    pub observed: Seq<ObservedRange>,
}

impl DeepView for CacheEntry {
    type V = CacheEntryModel;

    open spec fn deep_view(&self) -> CacheEntryModel {
        CacheEntryModel {
            content_hash: self.content_hash@,
            snapshot: self.snapshot@,
            bytes: self.bytes,
            modified_nanos: self.modified_nanos,
            observed: self.observed@,
        }
    }
}

#[derive(Clone, Debug, PartialEq, Eq)]
pub enum CacheError {
    Io(String),
    Json(String),
    InvalidUtf8,
    OutsideWorkspace,
    NotFile,
    FileTooLarge,
    PathTooLong,
    InvalidRange,
    SliceTooLarge,
    ConcurrentChange,
}

pub enum CacheErrorModel {
    Io(Seq<char>),
    Json(Seq<char>),
    InvalidUtf8,
    OutsideWorkspace,
    NotFile,
    FileTooLarge,
    PathTooLong,
    InvalidRange,
    SliceTooLarge,
    ConcurrentChange,
}

impl DeepView for CacheError {
    type V = CacheErrorModel;

    open spec fn deep_view(&self) -> CacheErrorModel {
        match self {
            CacheError::Io(e) => CacheErrorModel::Io(e@),
            CacheError::Json(e) => CacheErrorModel::Json(e@),
            CacheError::InvalidUtf8 => CacheErrorModel::InvalidUtf8,
            CacheError::OutsideWorkspace => CacheErrorModel::OutsideWorkspace,
            CacheError::NotFile => CacheErrorModel::NotFile,
            CacheError::FileTooLarge => CacheErrorModel::FileTooLarge,
            CacheError::PathTooLong => CacheErrorModel::PathTooLong,
            CacheError::InvalidRange => CacheErrorModel::InvalidRange,
            CacheError::SliceTooLarge => CacheErrorModel::SliceTooLarge,
            CacheError::ConcurrentChange => CacheErrorModel::ConcurrentChange,
        }
    }
}

impl CacheErrorModel {
    pub open spec fn message(self) -> Seq<char> {
        match self {
            CacheErrorModel::Io(e) => "file cache I/O: "@ + e,
            CacheErrorModel::Json(e) => "file cache JSON: "@ + e,
            CacheErrorModel::InvalidUtf8 => "file is not valid UTF-8 text"@,
            CacheErrorModel::OutsideWorkspace => "file is outside the workspace"@,
            CacheErrorModel::NotFile => "path is not a regular file"@,
            CacheErrorModel::FileTooLarge => "file exceeds the cache byte limit"@,
            CacheErrorModel::PathTooLong => "path exceeds the cache byte limit"@,
            CacheErrorModel::InvalidRange => "requested line range is invalid"@,
            CacheErrorModel::SliceTooLarge => "requested slice exceeds a cache limit"@,
            CacheErrorModel::ConcurrentChange => "file changed during observation"@,
        }
    }
}

impl CacheError {
    /// The error as a sentence for a person.
    pub fn message(&self) -> (r: String)
        ensures
            r@ == self.deep_view().message(),
    {
        match self {
            CacheError::Io(e) => text::concat("file cache I/O: ", e.as_str()),
            CacheError::Json(e) => text::concat("file cache JSON: ", e.as_str()),
            CacheError::InvalidUtf8 => text::copy("file is not valid UTF-8 text"),
            CacheError::OutsideWorkspace => text::copy("file is outside the workspace"),
            CacheError::NotFile => text::copy("path is not a regular file"),
            CacheError::FileTooLarge => text::copy("file exceeds the cache byte limit"),
            CacheError::PathTooLong => text::copy("path exceeds the cache byte limit"),
            CacheError::InvalidRange => text::copy("requested line range is invalid"),
            CacheError::SliceTooLarge => text::copy("requested slice exceeds a cache limit"),
            CacheError::ConcurrentChange => text::copy("file changed during observation"),
        }
    }
}

/// A range that may be asked for: lines count from one, and there are not too many.
pub open spec fn valid_range(requested: RequestedRange) -> bool {
    match requested {
        RequestedRange::Full => true,
        RequestedRange::Lines { start, end } => 0 < start <= end && end - start + 1
            <= MAX_SLICE_LINES,
    }
}

/// The lines that begin at `start`, with no line feed between `start` and `i`; a line
/// goes from its first character up to and with its line feed.
pub open spec fn spans_from(s: Seq<char>, start: int, i: int) -> Seq<(int, int)>
    decreases s.len() - i,
{
    if i < 0 || i >= s.len() {
        if start < s.len() {
            seq![(start, s.len() as int)]
        } else {
            seq![]
        }
    } else if s[i] == '\n' {
        seq![(start, i + 1)] + spans_from(s, i + 1, i + 1)
    } else {
        spans_from(s, start, i + 1)
    }
}

/// Where the lines of a text begin and end.
pub open spec fn spans_of(s: Seq<char>) -> Seq<(int, int)> {
    spans_from(s, 0, 0)
}

/// The part of a text that a range asks for, with the ends of its lines.
pub open spec fn slice_of(s: Seq<char>, requested: RequestedRange) -> Seq<char> {
    match requested {
        RequestedRange::Full => s,
        RequestedRange::Lines { start, end } => {
            let spans = spans_of(s);
            if start > spans.len() {
                seq![]
            } else {
                let last = if end < spans.len() {
                    end as int
                } else {
                    spans.len() as int
                };
                s.subrange(spans[start - 1].0, spans[last - 1].1)
            }
        },
    }
}

/// The lines that a range stands for.
pub open spec fn observed_range(s: Seq<char>, requested: RequestedRange) -> ObservedRange {
    match requested {
        RequestedRange::Full => ObservedRange {
            start: 1,
            end: if spans_of(s).len() > 1 {
                spans_of(s).len() as u64
            } else {
                1
            },
        },
        RequestedRange::Lines { start, end } => ObservedRange { start, end },
    }
}

/// One range holds all lines of another.
pub open spec fn covers(range: ObservedRange, requested: ObservedRange) -> bool {
    range.start <= requested.start && range.end >= requested.end
}

/// Some range of a list holds all lines of another.
pub open spec fn covered(observed: Seq<ObservedRange>, requested: ObservedRange) -> bool {
    exists|i: int| 0 <= i < observed.len() && covers(#[trigger] observed[i], requested)
}

/// Two ranges overlap or touch, where the second does not begin before the first.
pub open spec fn touches(range: ObservedRange, next: ObservedRange) -> bool {
    range.end == u64::MAX || next.start <= range.end + 1
}

/// The ranges from `i` on, those that touch made one, behind the ones already merged.
pub open spec fn merged_from(
    ranges: Seq<ObservedRange>,
    i: int,
    merged: Seq<ObservedRange>,
) -> Seq<ObservedRange>
    decreases ranges.len() - i,
{
    if i < 0 || i >= ranges.len() {
        merged
    } else if merged.len() > 0 && touches(merged.last(), ranges[i]) {
        let last = merged.last();
        merged_from(
            ranges,
            i + 1,
            merged.update(
                merged.len() - 1,
                ObservedRange {
                    start: last.start,
                    end: if last.end > ranges[i].end {
                        last.end
                    } else {
                        ranges[i].end
                    },
                },
            ),
        )
    } else {
        merged_from(ranges, i + 1, merged.push(ranges[i]))
    }
}

/// The first lines of ranges.
pub open spec fn starts_of(ranges: Seq<ObservedRange>) -> Seq<u128> {
    Seq::new(ranges.len(), |i: int| ranges[i].start as u128)
}

/// The ranges by their first line.
pub open spec fn by_start(ranges: Seq<ObservedRange>) -> Seq<ObservedRange> {
    let order = order::ordered(starts_of(ranges));
    Seq::new(order.len(), |i: int| ranges[order[i]])
}

/// The ranges with one more, by their first line and with those that touch made one.
pub open spec fn merged(observed: Seq<ObservedRange>, requested: ObservedRange) -> Seq<
    ObservedRange,
> {
    merged_from(by_start(observed.push(requested)), 0, seq![])
}

/// A range of lines of the old and of the new text of a diff.
#[derive(Clone, Copy, Debug, PartialEq, Eq, Structural)]
pub struct DiffSpan {
    pub equal: bool,
    pub old_start: usize,
    pub old_len: usize,
    pub new_start: usize,
    pub new_len: usize,
}

/// How `similar` turns one text into another, line by line.
pub uninterp spec fn line_diff(old: Seq<char>, new: Seq<char>) -> Seq<DiffSpan>;

/// `similar::TextDiff::from_lines` and its `ops`: the ranges of lines that are equal or
/// differ. They are a function of the two texts, named `line_diff`. A range lies within
/// the lines of its text, so that it ends at no more than `isize::MAX`, the size that
/// a string can have.
#[verifier::external_body]
fn diff_spans(old: &str, new: &str) -> (r: Vec<DiffSpan>)
    ensures
        r@ == line_diff(old@, new@),
        forall|i: int|
            0 <= i < r@.len() ==> (#[trigger] r@[i]).old_start + r@[i].old_len <= isize::MAX
                && r@[i].new_start + r@[i].new_len <= isize::MAX,
{
    similar::TextDiff::from_lines(old, new).ops().iter().map(
        |op| DiffSpan {
            equal: op.tag() == similar::DiffTag::Equal,
            old_start: op.old_range().start,
            old_len: op.old_range().len(),
            new_start: op.new_range().start,
            new_len: op.new_range().len(),
        },
    ).collect()
}

/// A changed range by line numbers, which count from one.
pub open spec fn change_of(span: DiffSpan) -> ChangedRange {
    ChangedRange {
        old_start: (span.old_start + 1) as u64,
        old_lines: span.old_len as u64,
        new_start: (span.new_start + 1) as u64,
        new_lines: span.new_len as u64,
    }
}

/// The changed ranges among the spans from `i` on.
pub open spec fn changes_from(spans: Seq<DiffSpan>, i: int) -> Seq<ChangedRange>
    decreases spans.len() - i,
{
    if i < 0 || i >= spans.len() {
        seq![]
    } else if spans[i].equal {
        changes_from(spans, i + 1)
    } else {
        seq![change_of(spans[i])] + changes_from(spans, i + 1)
    }
}

/// The changed ranges that are kept, and how many are left out.
pub open spec fn kept_changes(spans: Seq<DiffSpan>) -> (Seq<ChangedRange>, nat) {
    let all = changes_from(spans, 0);
    if all.len() > MAX_CHANGED_RANGES {
        (all.take(MAX_CHANGED_RANGES as int), (all.len() - MAX_CHANGED_RANGES) as nat)
    } else {
        (all, 0)
    }
}

/// Checks the range that is asked for.
pub fn validate_range(requested: RequestedRange) -> (r: Result<(), CacheError>)
    ensures
        match r {
            Ok(_) => valid_range(requested),
            Err(error) => !valid_range(requested) && error.deep_view()
                == CacheErrorModel::InvalidRange,
        },
{
    match requested {
        RequestedRange::Full => Ok(()),
        RequestedRange::Lines { start, end } => {
            if start == 0 || end < start || end - start >= MAX_SLICE_LINES {
                return Err(CacheError::InvalidRange);
            }
            Ok(())
        },
    }
}

/// Spans as mathematical integers.
pub open spec fn spans_view(spans: Seq<(usize, usize)>) -> Seq<(int, int)> {
    Seq::new(spans.len(), |i: int| (spans[i].0 as int, spans[i].1 as int))
}

/// Where the lines of a text begin and end.
pub fn line_spans(content: &[char]) -> (r: Vec<(usize, usize)>)
    ensures
        spans_view(r@) == spans_of(content@),
        forall|i: int|
            0 <= i < r@.len() ==> (#[trigger] r@[i]).0 <= r@[i].1 && r@[i].1 <= content@.len(),
        forall|i: int, j: int|
            0 <= i <= j < r@.len() ==> (#[trigger] r@[i]).0 <= (#[trigger] r@[j]).1,
{
    let mut spans: Vec<(usize, usize)> = Vec::new();
    let mut start: usize = 0;
    let count: usize = content.len();
    let mut i: usize = 0;
    while i < count
        invariant
            start <= i <= count,
            count == content@.len(),
            spans_of(content@) =~= spans_view(spans@) + spans_from(
                content@,
                start as int,
                i as int,
            ),
            forall|k: int|
                0 <= k < spans@.len() ==> (#[trigger] spans@[k]).0 <= spans@[k].1 && spans@[k].1
                    <= start,
            forall|a: int, b: int|
                0 <= a <= b < spans@.len() ==> (#[trigger] spans@[a]).0 <= (#[trigger] spans@[b]).1,
        decreases count - i,
    {
        if content[i] == '\n' {
            let ghost before = spans@;
            spans.push((start, i + 1));
            assert(spans_view(spans@) =~= spans_view(before).push((start as int, i + 1)));
            start = i + 1;
        }
        i += 1;
    }
    if start < count {
        let ghost before = spans@;
        spans.push((start, count));
        assert(spans_view(spans@) =~= spans_view(before).push((start as int, count as int)));
    }
    assert(spans_view(spans@) =~= spans_of(content@));
    spans
}

/// The part of a text that a range asks for.
pub fn slice_content(content: &[char], requested: RequestedRange) -> (r: &[char])
    requires
        valid_range(requested),
    ensures
        r@ == slice_of(content@, requested),
{
    match requested {
        RequestedRange::Full => content,
        RequestedRange::Lines { start, end } => {
            let spans = line_spans(content);
            let ghost all = spans_view(spans@);
            let count: usize = spans.len();
            if start > count as u64 {
                let nothing = vstd::slice::slice_subrange(content, 0, 0);
                assert(nothing@ =~= Seq::empty());
                return nothing;
            }
            let last: usize = if end < count as u64 {
                end as usize
            } else {
                count
            };
            let first: usize = start as usize - 1;
            assert(all[first as int] == (spans@[first as int].0 as int, spans@[first as int].1 as int));
            assert(all[last - 1] == (spans@[last - 1].0 as int, spans@[last - 1].1 as int));
            assert(spans@[first as int].0 <= spans@[last - 1].1);
            vstd::slice::slice_subrange(content, spans[first].0, spans[last - 1].1)
        },
    }
}

fn actual_observed_range(content: &[char], requested: RequestedRange) -> (r: ObservedRange)
    ensures
        r == observed_range(content@, requested),
{
    match requested {
        RequestedRange::Full => {
            let spans = line_spans(content);
            assert(spans_view(spans@).len() == spans@.len());
            let count: u64 = spans.len() as u64;
            let end: u64 = if count > 1 {
                count
            } else {
                1
            };
            ObservedRange { start: 1, end }
        },
        RequestedRange::Lines { start, end } => ObservedRange { start, end },
    }
}

/// Some range of a list holds all lines of another.
pub fn is_covered(observed: &Vec<ObservedRange>, requested: ObservedRange) -> (r: bool)
    ensures
        r == covered(observed@, requested),
{
    let mut i: usize = 0;
    while i < observed.len()
        invariant
            i <= observed@.len(),
            forall|k: int| 0 <= k < i ==> !covers(#[trigger] observed@[k], requested),
        decreases observed@.len() - i,
    {
        if observed[i].start <= requested.start && observed[i].end >= requested.end {
            assert(covers(observed@[i as int], requested));
            return true;
        }
        i += 1;
    }
    false
}

/// Adds a range, and makes those that touch one.
pub fn merge_range(observed: &Vec<ObservedRange>, requested: ObservedRange) -> (r: Vec<
    ObservedRange,
>)
    ensures
        r@ == merged(observed@, requested),
{
    let mut all: Vec<ObservedRange> = Vec::new();
    let mut starts: Vec<u128> = Vec::new();
    let mut k: usize = 0;
    while k < observed.len()
        invariant
            k <= observed@.len(),
            all@ =~= observed@.take(k as int),
            starts@ =~= starts_of(all@),
        decreases observed@.len() - k,
    {
        all.push(observed[k]);
        starts.push(observed[k].start as u128);
        k += 1;
    }
    assert(all@ =~= observed@);
    all.push(requested);
    starts.push(requested.start as u128);
    assert(starts@ =~= starts_of(all@));
    let order = order::order(&starts);
    let ghost places = order::positions(order@);
    let ghost sorted = by_start(all@);
    assert(sorted.len() == order@.len());
    let mut merged_ranges: Vec<ObservedRange> = Vec::new();
    let mut i: usize = 0;
    while i < order.len()
        invariant
            i <= order@.len(),
            places == order::positions(order@),
            order::stable(places, starts@, starts@.len() as int),
            starts@.len() == all@.len(),
            sorted == by_start(all@),
            places == order::ordered(starts_of(all@)),
            sorted.len() == order@.len(),
            merged_from(sorted, 0, seq![]) == merged_from(sorted, i as int, merged_ranges@),
        decreases order@.len() - i,
    {
        assert(places[i as int] == order@[i as int]);
        let range = all[order[i]];
        assert(range == sorted[i as int]);
        let count: usize = merged_ranges.len();
        if count > 0 && (merged_ranges[count - 1].end == u64::MAX || range.start
            <= merged_ranges[count - 1].end + 1) {
            let last = merged_ranges[count - 1];
            let end: u64 = if last.end > range.end {
                last.end
            } else {
                range.end
            };
            merged_ranges.set(count - 1, ObservedRange { start: last.start, end });
        } else {
            merged_ranges.push(range);
        }
        i += 1;
    }
    merged_ranges
}

/// The changed ranges that are kept of a diff, and how many are left out.
pub fn keep_changes(spans: &Vec<DiffSpan>) -> (r: (Vec<ChangedRange>, u64))
    requires
        forall|i: int|
            0 <= i < spans@.len() ==> (#[trigger] spans@[i]).old_start + spans@[i].old_len
                <= isize::MAX && spans@[i].new_start + spans@[i].new_len <= isize::MAX,
    ensures
        (r.0@, r.1 as nat) == kept_changes(spans@),
{
    let mut ranges: Vec<ChangedRange> = Vec::new();
    let mut i: usize = 0;
    while i < spans.len()
        invariant
            i <= spans@.len(),
            forall|k: int|
                0 <= k < spans@.len() ==> (#[trigger] spans@[k]).old_start + spans@[k].old_len
                    <= isize::MAX && spans@[k].new_start + spans@[k].new_len <= isize::MAX,
            changes_from(spans@, 0) =~= ranges@ + changes_from(spans@, i as int),
        decreases spans@.len() - i,
    {
        let span = spans[i];
        if !span.equal {
            ranges.push(
                ChangedRange {
                    old_start: span.old_start as u64 + 1,
                    old_lines: span.old_len as u64,
                    new_start: span.new_start as u64 + 1,
                    new_lines: span.new_len as u64,
                },
            );
        }
        i += 1;
    }
    assert(ranges@ =~= changes_from(spans@, 0));
    let count: usize = ranges.len();
    if count > MAX_CHANGED_RANGES {
        ranges.truncate(MAX_CHANGED_RANGES);
        assert(ranges@ =~= changes_from(spans@, 0).take(MAX_CHANGED_RANGES as int));
        (ranges, (count - MAX_CHANGED_RANGES) as u64)
    } else {
        (ranges, 0)
    }
}

fn changed_ranges(old: &str, new: &str) -> (r: (Vec<ChangedRange>, u64))
    ensures
        (r.0@, r.1 as nat) == kept_changes(line_diff(old@, new@)),
{
    let spans = diff_spans(old, new);
    keep_changes(&spans)
}

/// What is known of a file before it is read: its path without links, and what stands
/// there.
#[derive(Debug, PartialEq, Eq)]
pub struct FileFacts {
    pub canonical: String,
    pub is_file: bool,
    pub bytes: u64,
    pub modified_nanos: Option<u128>,
}

/// Why a file is not supported, as far as is known before it is read. `workspace` is the
/// workspace without links.
pub open spec fn unsupported(
    canonical: Seq<char>,
    is_file: bool,
    bytes: u64,
    workspace: Seq<char>,
) -> Option<CacheErrorModel> {
    if !path::within(canonical, workspace) {
        Some(CacheErrorModel::OutsideWorkspace)
    } else if text::byte_len(canonical) > MAX_PATH_BYTES {
        Some(CacheErrorModel::PathTooLong)
    } else if !is_file {
        Some(CacheErrorModel::NotFile)
    } else if bytes > MAX_FILE_BYTES {
        Some(CacheErrorModel::FileTooLarge)
    } else {
        None
    }
}

/// Checks a file before it is read.
pub fn inspect_supported_file(facts: &FileFacts, workspace: &str) -> (r: Result<(), CacheError>)
    ensures
        match (r, unsupported(facts.canonical@, facts.is_file, facts.bytes, workspace@)) {
            (Ok(_), None) => true,
            (Err(error), Some(e)) => error.deep_view() == e,
            _ => false,
        },
{
    if !path::is_within(facts.canonical.as_str(), workspace) {
        return Err(CacheError::OutsideWorkspace);
    }
    if text::count_bytes(facts.canonical.as_str()) > MAX_PATH_BYTES {
        return Err(CacheError::PathTooLong);
    }
    if !facts.is_file {
        return Err(CacheError::NotFile);
    }
    if facts.bytes > MAX_FILE_BYTES {
        return Err(CacheError::FileTooLarge);
    }
    Ok(())
}

/// The length and the time of a file at one moment.
#[derive(Clone, Copy, Debug, PartialEq, Eq)]
pub struct Stamp {
    pub bytes: u64,
    pub modified_nanos: Option<u128>,
}

/// Two reads of a file agree with each other and with the file's length before, between
/// and behind them, and its time did not move.
pub open spec fn stable_reads(
    before: Stamp,
    first: Seq<u8>,
    middle: Stamp,
    second: Seq<u8>,
    after: Stamp,
) -> bool {
    &&& first == second
    &&& before.bytes == first.len()
    &&& middle.bytes == first.len()
    &&& after.bytes == first.len()
    &&& before.modified_nanos == middle.modified_nanos
    &&& middle.modified_nanos == after.modified_nanos
}

fn same_time(a: Option<u128>, b: Option<u128>) -> (r: bool)
    ensures
        r == (a == b),
{
    match (a, b) {
        (Some(a), Some(b)) => a == b,
        (None, None) => true,
        _ => false,
    }
}

/// Two reads of a file show the same unmoving file.
pub fn is_stable_read(before: Stamp, first: &[u8], middle: Stamp, second: &[u8], after: Stamp) -> (r:
    bool)
    ensures
        r == stable_reads(before, first@, middle, second@, after),
{
    list::same_bytes(first, second) && before.bytes == first.len() as u64 && middle.bytes == first.len()
        as u64 && after.bytes == first.len() as u64 && same_time(
        before.modified_nanos,
        middle.modified_nanos,
    ) && same_time(middle.modified_nanos, after.modified_nanos)
}

/// Whether a file that moved under a read is read once more, behind `attempts` reads.
pub fn read_again(attempts: u64) -> (r: Result<(), CacheError>)
    ensures
        match r {
            Ok(_) => attempts < READ_ATTEMPTS,
            Err(error) => attempts >= READ_ATTEMPTS && error.deep_view()
                == CacheErrorModel::ConcurrentChange,
        },
{
    if attempts < READ_ATTEMPTS {
        Ok(())
    } else {
        Err(CacheError::ConcurrentChange)
    }
}

/// The key under which the observations of a file by a session are kept.
pub open spec fn key_of(session_id: Seq<char>, canonical: Seq<char>) -> Seq<char> {
    digest::sha256_hex(vstd::utf8::encode_utf8(session_id + seq!['\0'] + canonical))
}

/// The key under which the observations of a file by a session are kept.
pub fn cache_key(session_id: &str, canonical: &str) -> (r: String)
    ensures
        r@ == key_of(session_id@, canonical@),
{
    let mut key = text::to_chars(session_id);
    key.push('\0');
    text::append(&mut key, text::to_chars(canonical).as_slice());
    assert(key@ =~= session_id@ + seq!['\0'] + canonical@);
    let key = text::to_text(key.as_slice());
    digest::sha256_text(key.as_str().as_bytes())
}

/// The path as it is shown: below the workspace where it lies there.
pub open spec fn shown_path(canonical: Seq<char>, workspace: Seq<char>) -> Seq<char> {
    text::slashed(
        match path::below(canonical, workspace) {
            Some(relative) => relative,
            None => canonical,
        },
    )
}

fn relative_display_path(canonical: &str, workspace: &str) -> (r: String)
    ensures
        r@ == shown_path(canonical@, workspace@),
{
    let shown = match path::relative_to(canonical, workspace) {
        Some(relative) => relative,
        None => text::copy(canonical),
    };
    let slashes = text::to_slashes(text::to_chars(shown.as_str()).as_slice());
    text::to_text(slashes.as_slice())
}

/// What a read says, and the entry that is to be kept where it is not what was kept.
#[derive(Debug, PartialEq, Eq)]
pub struct Observed {
    pub observation: FileObservation,
    pub entry: Option<CacheEntry>,
}

pub struct ObservedModel {
    pub observation: FileObservationModel,
    pub entry: Option<CacheEntryModel>,
}

impl DeepView for Observed {
    type V = ObservedModel;

    open spec fn deep_view(&self) -> ObservedModel {
        ObservedModel {
            observation: self.observation.deep_view(),
            entry: self.entry.deep_view(),
        }
    }
}

/// Where the contents with a digest are kept.
pub open spec fn snapshot_path(state_root: Seq<char>, content_hash: Seq<char>) -> Seq<char> {
    path::joined(path::joined(state_root, "snapshots"@), content_hash + ".utf8"@)
}

/// What a read of valid text says, for the entry that the session left before. The text
/// under that entry is given as `spans` say how it turned into the present one.
pub open spec fn observation_of(
    canonical: Seq<char>,
    workspace: Seq<char>,
    state_root: Seq<char>,
    raw: Seq<u8>,
    content: Seq<char>,
    bytes: u64,
    modified_nanos: Option<u128>,
    requested: RequestedRange,
    previous: Option<CacheEntryModel>,
    spans: Seq<DiffSpan>,
) -> ObservedModel {
    let content_hash = digest::sha256_hex(raw);
    let range = observed_range(content, requested);
    let same = previous matches Some(previous) && previous.content_hash == content_hash;
    if same && covered(previous->0.observed, range) {
        ObservedModel {
            observation: FileObservationModel {
                status: ObservationStatus::Unchanged,
                path: shown_path(canonical, workspace),
                requested,
                content: None,
                changed_ranges: seq![],
                omitted_changed_ranges: 0,
                completeness: "requested range is unchanged and already observed in this session"@,
            },
            entry: None,
        }
    } else {
        let changed = previous is Some && !same;
        let changes = if changed {
            kept_changes(spans)
        } else {
            (seq![], 0)
        };
        let seen = if same {
            previous->0.observed
        } else {
            seq![]
        };
        ObservedModel {
            observation: FileObservationModel {
                status: if changed {
                    ObservationStatus::Changed
                } else {
                    ObservationStatus::Content
                },
                path: shown_path(canonical, workspace),
                requested,
                content: Some(slice_of(content, requested)),
                changed_ranges: changes.0,
                omitted_changed_ranges: changes.1,
                completeness: if changed {
                    "requested current content and bounded changed line ranges retained"@
                } else {
                    "requested current content retained"@
                },
            },
            entry: Some(
                CacheEntryModel {
                    content_hash,
                    snapshot: snapshot_path(state_root, content_hash),
                    bytes,
                    modified_nanos,
                    observed: merged(seen, range),
                },
            ),
        }
    }
}

/// What a read says, or why it is refused: the range, then the text, then the size of the
/// part that is asked for.
pub open spec fn observed_for(
    canonical: Seq<char>,
    workspace: Seq<char>,
    state_root: Seq<char>,
    raw: Seq<u8>,
    bytes: u64,
    modified_nanos: Option<u128>,
    requested: RequestedRange,
    previous: Option<CacheEntryModel>,
    spans: Seq<DiffSpan>,
) -> Result<ObservedModel, CacheErrorModel> {
    if !valid_range(requested) {
        Err(CacheErrorModel::InvalidRange)
    } else if !vstd::utf8::valid_utf8(raw) {
        Err(CacheErrorModel::InvalidUtf8)
    } else {
        let content = vstd::utf8::decode_utf8(raw);
        if requested != RequestedRange::Full && text::byte_len(slice_of(content, requested))
            > MAX_SLICE_BYTES {
            Err(CacheErrorModel::SliceTooLarge)
        } else {
            Ok(
                observation_of(
                    canonical,
                    workspace,
                    state_root,
                    raw,
                    content,
                    bytes,
                    modified_nanos,
                    requested,
                    previous,
                    spans,
                ),
            )
        }
    }
}

fn new_entry(
    facts: &FileFacts,
    state_root: &str,
    content_hash: String,
    observed: Vec<ObservedRange>,
) -> (r: CacheEntry)
    ensures
        r.deep_view() == (CacheEntryModel {
            content_hash: content_hash@,
            snapshot: snapshot_path(state_root@, content_hash@),
            bytes: facts.bytes,
            modified_nanos: facts.modified_nanos,
            observed: observed@,
        }),
{
    let directory = path::join(state_root, "snapshots");
    let name = text::concat(content_hash.as_str(), ".utf8");
    CacheEntry {
        content_hash,
        snapshot: path::join(directory.as_str(), name.as_str()),
        bytes: facts.bytes,
        modified_nanos: facts.modified_nanos,
        observed,
    }
}

/// What a read of a supported file says. `previous` is the entry that the session left for
/// the file, and `old` the text kept under it; `workspace` is the workspace as the caller
/// names it.
pub fn observe_file(
    facts: &FileFacts,
    raw: &[u8],
    workspace: &str,
    state_root: &str,
    requested: RequestedRange,
    previous: Option<CacheEntry>,
    old: &str,
) -> (r: Result<Observed, CacheError>)
    ensures
        match (
            r,
            observed_for(
                facts.canonical@,
                workspace@,
                state_root@,
                raw@,
                facts.bytes,
                facts.modified_nanos,
                requested,
                previous.deep_view(),
                line_diff(old@, vstd::utf8::decode_utf8(raw@)),
            ),
        ) {
            (Ok(observed), Ok(o)) => observed.deep_view() == o,
            (Err(error), Err(e)) => error.deep_view() == e,
            _ => false,
        },
{
    match validate_range(requested) {
        Ok(_) => {},
        Err(error) => {
            return Err(error);
        },
    }
    let content = match text::decode(raw) {
        Ok(content) => content,
        Err(_) => {
            return Err(CacheError::InvalidUtf8);
        },
    };
    let chars = text::to_chars(content.as_str());
    let requested_content = text::to_text(slice_content(chars.as_slice(), requested));
    if requested != RequestedRange::Full && text::count_bytes(requested_content.as_str())
        > MAX_SLICE_BYTES {
        return Err(CacheError::SliceTooLarge);
    }
    let content_hash = digest::sha256_text(raw);
    let range = actual_observed_range(chars.as_slice(), requested);
    let path = relative_display_path(facts.canonical.as_str(), workspace);
    let none: Vec<ChangedRange> = Vec::new();
    let unseen: Vec<ObservedRange> = Vec::new();
    assert(none@ =~= Seq::empty());
    assert(unseen@ =~= Seq::empty());
    let (status, changes, omitted, observed) = match &previous {
        Some(previous) => {
            if text::same_text(previous.content_hash.as_str(), content_hash.as_str()) {
                if is_covered(&previous.observed, range) {
                    return Ok(
                        Observed {
                            observation: FileObservation {
                                status: ObservationStatus::Unchanged,
                                path,
                                requested,
                                content: None,
                                changed_ranges: none,
                                omitted_changed_ranges: 0,
                                completeness: text::copy(
                                    "requested range is unchanged and already observed in this session",
                                ),
                            },
                            entry: None,
                        },
                    );
                }
                (ObservationStatus::Content, none, 0, merge_range(&previous.observed, range))
            } else {
                let (ranges, omitted) = changed_ranges(old, content.as_str());
                (ObservationStatus::Changed, ranges, omitted, merge_range(&unseen, range))
            }
        },
        None => (ObservationStatus::Content, none, 0, merge_range(&unseen, range)),
    };
    let completeness = if status == ObservationStatus::Changed {
        text::copy("requested current content and bounded changed line ranges retained")
    } else {
        text::copy("requested current content retained")
    };
    Ok(
        Observed {
            observation: FileObservation {
                status,
                path,
                requested,
                content: Some(requested_content),
                changed_ranges: changes,
                omitted_changed_ranges: omitted,
                completeness,
            },
            entry: Some(new_entry(facts, state_root, content_hash, observed)),
        },
    )
}

/// A file that could be read, and holds text, is supported.
pub fn supports_file(raw: &Result<Vec<u8>, CacheError>) -> (r: bool)
    ensures
        r == (raw matches Ok(raw) && vstd::utf8::valid_utf8(raw@)),
{
    match raw {
        Ok(raw) => text::decode(raw.as_slice()).is_ok(),
        Err(_) => false,
    }
}

/// A read that would be answered: the range is valid, the file could be read and holds
/// text, and the part that is asked for is not too large.
pub fn supports_request(raw: &Result<Vec<u8>, CacheError>, requested: RequestedRange) -> (r: bool)
    ensures
        r == (valid_range(requested) && (raw matches Ok(raw) && vstd::utf8::valid_utf8(raw@) && (
        requested == RequestedRange::Full || text::byte_len(
            slice_of(vstd::utf8::decode_utf8(raw@), requested),
        ) <= MAX_SLICE_BYTES))),
{
    if validate_range(requested).is_err() {
        return false;
    }
    let raw = match raw {
        Ok(raw) => raw,
        Err(_) => {
            return false;
        },
    };
    let content = match text::decode(raw.as_slice()) {
        Ok(content) => content,
        Err(_) => {
            return false;
        },
    };
    let chars = text::to_chars(content.as_str());
    let slice = text::to_text(slice_content(chars.as_slice(), requested));
    requested == RequestedRange::Full || text::count_bytes(slice.as_str()) <= MAX_SLICE_BYTES
}

/// A line lies in one of the ranges.
pub open spec fn seen(ranges: Seq<ObservedRange>, line: int) -> bool {
    exists|i: int|
        0 <= i < ranges.len() && (#[trigger] ranges[i]).start <= line && line <= ranges[i].end
}

/// The ranges begin in order.
pub open spec fn by_start_in_order(ranges: Seq<ObservedRange>) -> bool {
    forall|i: int, j: int|
        0 <= i <= j < ranges.len() ==> (#[trigger] ranges[i]).start <= (#[trigger] ranges[j]).start
}

proof fn sorted_ranges_are_in_order(ranges: Seq<ObservedRange>)
    ensures
        by_start(ranges).len() == ranges.len(),
        by_start_in_order(by_start(ranges)),
        forall|i: int|
            0 <= i < ranges.len() ==> by_start(ranges).contains(#[trigger] ranges[i]),
        forall|i: int|
            0 <= i < by_start(ranges).len() ==> ranges.contains(#[trigger] by_start(ranges)[i]),
{
    let keys = starts_of(ranges);
    let order = order::ordered(keys);
    let sorted = by_start(ranges);
    order::ordered_is_stable(keys);
    assert forall|i: int, j: int| 0 <= i <= j < sorted.len() implies (#[trigger] sorted[i]).start <= (
    #[trigger] sorted[j]).start by {
        assert(keys[order[i]] == ranges[order[i]].start as u128);
        assert(keys[order[j]] == ranges[order[j]].start as u128);
        if i < j {
            assert(keys[order[i]] <= keys[order[j]]);
        }
    }
    assert forall|i: int| 0 <= i < ranges.len() implies sorted.contains(#[trigger] ranges[i]) by {
        order::every_item_is_placed(keys, i);
        let k = order.index_of(i);
        assert(order[k] == i);
        assert(sorted[k] == ranges[i]);
    }
    assert forall|i: int| 0 <= i < sorted.len() implies ranges.contains(#[trigger] sorted[i]) by {
        assert(0 <= order[i] < ranges.len());
        assert(sorted[i] == ranges[order[i]]);
    }
}

proof fn merging_covers(
    ranges: Seq<ObservedRange>,
    i: int,
    merged: Seq<ObservedRange>,
    wanted: ObservedRange,
)
    requires
        0 <= i <= ranges.len(),
        by_start_in_order(ranges),
        merged.len() > 0 && i < ranges.len() ==> merged.last().start <= ranges[i].start,
        covered(merged, wanted) || exists|k: int| i <= k < ranges.len() && #[trigger] ranges[k] == wanted,
    ensures
        covered(merged_from(ranges, i, merged), wanted),
    decreases ranges.len() - i,
{
    if i < ranges.len() {
        let range = ranges[i];
        let next = if merged.len() > 0 && touches(merged.last(), range) {
            let last = merged.last();
            merged.update(
                merged.len() - 1,
                ObservedRange {
                    start: last.start,
                    end: if last.end > range.end {
                        last.end
                    } else {
                        range.end
                    },
                },
            )
        } else {
            merged.push(range)
        };
        if covered(merged, wanted) {
            let k = choose|k: int|
                0 <= k < merged.len() && covers(#[trigger] merged[k], wanted);
            assert(covers(next[k], wanted));
        } else if range == wanted {
            assert(covers(next[next.len() - 1], wanted));
        } else {
            let k = choose|k: int| i <= k < ranges.len() && #[trigger] ranges[k] == wanted;
            assert(i + 1 <= k);
        }
        if i + 1 < ranges.len() {
            assert(ranges[i].start <= ranges[i + 1].start);
        }
        merging_covers(ranges, i + 1, next, wanted);
    }
}

proof fn merging_keeps_lines(
    ranges: Seq<ObservedRange>,
    i: int,
    merged: Seq<ObservedRange>,
    line: int,
)
    requires
        0 <= i <= ranges.len(),
        by_start_in_order(ranges),
        merged.len() > 0 && i < ranges.len() ==> merged.last().start <= ranges[i].start,
        forall|k: int| 0 <= k < ranges.len() ==> (#[trigger] ranges[k]).start <= ranges[k].end,
        seen(merged_from(ranges, i, merged), line),
    ensures
        seen(merged, line) || seen(ranges, line),
    decreases ranges.len() - i,
{
    if i < ranges.len() {
        let range = ranges[i];
        let touching = merged.len() > 0 && touches(merged.last(), range);
        let last = merged.last();
        let next = if touching {
            merged.update(
                merged.len() - 1,
                ObservedRange {
                    start: last.start,
                    end: if last.end > range.end {
                        last.end
                    } else {
                        range.end
                    },
                },
            )
        } else {
            merged.push(range)
        };
        if i + 1 < ranges.len() {
            assert(ranges[i].start <= ranges[i + 1].start);
        }
        merging_keeps_lines(ranges, i + 1, next, line);
        if seen(next, line) {
            let k = choose|k: int|
                0 <= k < next.len() && (#[trigger] next[k]).start <= line && line <= next[k].end;
            if k < next.len() - 1 {
                assert(next[k] == merged[k]);
            } else if touching {
                if line <= last.end {
                    assert(merged[k].start <= line && line <= merged[k].end);
                } else {
                    assert(ranges[i].start <= line && line <= ranges[i].end);
                }
            } else {
                assert(ranges[i].start <= line && line <= ranges[i].end);
            }
        }
    }
}

/// Adding a range forgets no line that was seen, and claims no line that was not: a line is
/// seen behind the addition exactly if it was seen before or lies in the range.
pub proof fn merging_adds_exactly_the_range(
    observed: Seq<ObservedRange>,
    requested: ObservedRange,
    line: int,
)
    requires
        requested.start <= requested.end,
        forall|k: int| 0 <= k < observed.len() ==> (#[trigger] observed[k]).start <= observed[k].end,
    ensures
        seen(merged(observed, requested), line) <==> seen(observed, line) || (requested.start <= line
            && line <= requested.end),
{
    let all = observed.push(requested);
    let sorted = by_start(all);
    sorted_ranges_are_in_order(all);
    assert(all[observed.len() as int] == requested);
    assert forall|k: int| 0 <= k < sorted.len() implies (#[trigger] sorted[k]).start
        <= sorted[k].end by {
        assert(all.contains(sorted[k]));
    }
    if seen(merged(observed, requested), line) {
        merging_keeps_lines(sorted, 0, seq![], line);
        let k = choose|k: int|
            0 <= k < sorted.len() && (#[trigger] sorted[k]).start <= line && line <= sorted[k].end;
        assert(all.contains(sorted[k]));
        let j = all.index_of(sorted[k]);
        if j < observed.len() {
            assert(observed[j] == sorted[k]);
        }
    }
    if seen(observed, line) || (requested.start <= line && line <= requested.end) {
        let j = if seen(observed, line) {
            choose|j: int|
                0 <= j < observed.len() && (#[trigger] observed[j]).start <= line && line
                    <= observed[j].end
        } else {
            observed.len() as int
        };
        let range = all[j];
        assert(sorted.contains(range));
        let k = sorted.index_of(range);
        assert(sorted[k] == range);
        merging_covers(sorted, 0, seq![], range);
        let result = merged(observed, requested);
        let w = choose|w: int| 0 <= w < result.len() && covers(#[trigger] result[w], range);
        assert(result[w].start <= line && line <= result[w].end);
    }
}

/// The ranges begin one behind the other, and none touches the next.
pub open spec fn apart(ranges: Seq<ObservedRange>) -> bool {
    forall|i: int, j: int|
        0 <= i < j < ranges.len() ==> (#[trigger] ranges[i]).start <= (#[trigger] ranges[j]).start
            && !touches(ranges[i], ranges[j])
}

proof fn merging_keeps_apart(ranges: Seq<ObservedRange>, i: int, merged: Seq<ObservedRange>)
    requires
        0 <= i <= ranges.len(),
        by_start_in_order(ranges),
        apart(merged),
        merged.len() > 0 && i < ranges.len() ==> merged.last().start <= ranges[i].start,
    ensures
        apart(merged_from(ranges, i, merged)),
    decreases ranges.len() - i,
{
    if i < ranges.len() {
        let range = ranges[i];
        let touching = merged.len() > 0 && touches(merged.last(), range);
        let last = merged.last();
        let next = if touching {
            merged.update(
                merged.len() - 1,
                ObservedRange {
                    start: last.start,
                    end: if last.end > range.end {
                        last.end
                    } else {
                        range.end
                    },
                },
            )
        } else {
            merged.push(range)
        };
        if i + 1 < ranges.len() {
            assert(ranges[i].start <= ranges[i + 1].start);
        }
        assert forall|a: int, b: int| 0 <= a < b < next.len() implies (#[trigger] next[a]).start <= (
        #[trigger] next[b]).start && !touches(next[a], next[b]) by {
            assert(next[a] == merged[a]);
            if b < merged.len() {
                assert(next[b].start == merged[b].start);
            } else {
                assert(merged[a].start <= last.start);
                if a < merged.len() - 1 {
                    assert(!touches(merged[a], merged[merged.len() - 1]));
                }
            }
        }
        merging_keeps_apart(ranges, i + 1, next);
    }
}

/// Ranges come out of an addition in the order of their first lines, and no two of them overlap
/// or touch.
pub proof fn merged_ranges_are_apart(observed: Seq<ObservedRange>, requested: ObservedRange)
    ensures
        apart(merged(observed, requested)),
{
    let all = observed.push(requested);
    sorted_ranges_are_in_order(all);
    merging_keeps_apart(by_start(all), 0, seq![]);
}

/// A range that was added is covered from then on, and so is every range that was covered
/// by one before.
pub proof fn merged_ranges_stay_covered(observed: Seq<ObservedRange>, requested: ObservedRange)
    ensures
        covered(merged(observed, requested), requested),
        forall|range: ObservedRange| #[trigger]
            covered(observed, range) ==> covered(merged(observed, requested), range),
{
    let all = observed.push(requested);
    let sorted = by_start(all);
    sorted_ranges_are_in_order(all);
    assert(all[observed.len() as int] == requested);
    let place = sorted.index_of(requested);
    assert(sorted[place] == requested);
    merging_covers(sorted, 0, seq![], requested);
    let result = merged(observed, requested);
    assert forall|range: ObservedRange| #[trigger] covered(observed, range) implies covered(
        result,
        range,
    ) by {
        let j = choose|j: int| 0 <= j < observed.len() && covers(#[trigger] observed[j], range);
        assert(all[j] == observed[j]);
        let k = sorted.index_of(all[j]);
        assert(sorted[k] == all[j]);
        merging_covers(sorted, 0, seq![], all[j]);
        let w = choose|w: int| 0 <= w < result.len() && covers(#[trigger] result[w], all[j]);
        assert(covers(result[w], range));
    }
}

/// A read that is repeated on the same bytes in the same session is answered without the
/// content, and leaves what was kept as it is.
pub proof fn repeated_reads_are_unchanged(
    canonical: Seq<char>,
    workspace: Seq<char>,
    state_root: Seq<char>,
    raw: Seq<u8>,
    content: Seq<char>,
    bytes: u64,
    modified_nanos: Option<u128>,
    requested: RequestedRange,
    previous: Option<CacheEntryModel>,
    spans: Seq<DiffSpan>,
    later_bytes: u64,
    later_modified_nanos: Option<u128>,
    later_spans: Seq<DiffSpan>,
)
    ensures
        ({
            let first = observation_of(
                canonical,
                workspace,
                state_root,
                raw,
                content,
                bytes,
                modified_nanos,
                requested,
                previous,
                spans,
            );
            let kept = match first.entry {
                Some(entry) => Some(entry),
                None => previous,
            };
            let second = observation_of(
                canonical,
                workspace,
                state_root,
                raw,
                content,
                later_bytes,
                later_modified_nanos,
                requested,
                kept,
                later_spans,
            );
            &&& second.observation.status == ObservationStatus::Unchanged
            &&& second.observation.content is None
            &&& second.observation.changed_ranges.len() == 0
            &&& second.entry is None
        }),
{
    let range = observed_range(content, requested);
    merged_ranges_stay_covered(seq![], range);
    if let Some(previous) = previous {
        merged_ranges_stay_covered(previous.observed, range);
    }
}

/// A read of bytes other than those kept is answered with the present content of the
/// requested range, and what is kept from then on says nothing of the old bytes.
pub proof fn changed_files_are_shown_anew(
    canonical: Seq<char>,
    workspace: Seq<char>,
    state_root: Seq<char>,
    raw: Seq<u8>,
    content: Seq<char>,
    bytes: u64,
    modified_nanos: Option<u128>,
    requested: RequestedRange,
    previous: CacheEntryModel,
    spans: Seq<DiffSpan>,
)
    requires
        previous.content_hash != digest::sha256_hex(raw),
    ensures
        ({
            let observed = observation_of(
                canonical,
                workspace,
                state_root,
                raw,
                content,
                bytes,
                modified_nanos,
                requested,
                Some(previous),
                spans,
            );
            &&& observed.observation.status == ObservationStatus::Changed
            &&& observed.observation.content == Some(slice_of(content, requested))
            &&& observed.entry matches Some(entry) && entry.content_hash == digest::sha256_hex(raw)
                && entry.observed == seq![observed_range(content, requested)]
        }),
{
    let range = observed_range(content, requested);
    let all = Seq::<ObservedRange>::empty().push(range);
    sorted_ranges_are_in_order(all);
    assert(all[0] == range);
    let sorted = by_start(all);
    assert(all.contains(sorted[0]));
    assert(sorted =~= seq![range]);
    reveal_with_fuel(merged_from, 2);
    assert(merged(seq![], range) =~= seq![range]);
}

/// No more changed ranges are kept than the bound says, and with those that are counted as
/// left out they are all there are.
pub proof fn changed_ranges_are_kept_or_counted(spans: Seq<DiffSpan>)
    ensures
        kept_changes(spans).0.len() <= MAX_CHANGED_RANGES,
        kept_changes(spans).0.len() + kept_changes(spans).1 == changes_from(spans, 0).len(),
        kept_changes(spans).0 == changes_from(spans, 0).take(kept_changes(spans).0.len() as int),
{
    assert(changes_from(spans, 0).take(changes_from(spans, 0).len() as int) =~= changes_from(
        spans,
        0,
    ));
}

/// A read that is answered shows no more of the file than a slice may hold, unless all of
/// the file was asked for.
pub proof fn slices_are_bounded(
    canonical: Seq<char>,
    workspace: Seq<char>,
    state_root: Seq<char>,
    raw: Seq<u8>,
    bytes: u64,
    modified_nanos: Option<u128>,
    requested: RequestedRange,
    previous: Option<CacheEntryModel>,
    spans: Seq<DiffSpan>,
)
    requires
        requested != RequestedRange::Full,
    ensures
        observed_for(
            canonical,
            workspace,
            state_root,
            raw,
            bytes,
            modified_nanos,
            requested,
            previous,
            spans,
        ) matches Ok(observed) ==> (observed.observation.content matches Some(content)
            ==> text::byte_len(content) <= MAX_SLICE_BYTES),
{
}

} // verus!
