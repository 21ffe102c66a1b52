//! The records that a search gives, and their projection.

pub mod laws;

use vstd::prelude::*;
use crate::causal_context::search;
use crate::list;
use crate::path;
use crate::sorted;
use crate::text;

verus! {

broadcast use vstd::string::group_string_axioms;

/// The most bytes that a projection may have.
pub const MAX_MODEL_PROJECTION_BYTES: usize = 65_536;

/// The most records that are kept.
pub const MAX_RAW_MATCH_LOCATIONS: usize = 4_096;

#[derive(Clone, Copy, Debug, PartialEq, Eq, Structural)]
pub enum RecordKind {
    Match,
    Context,
}

/// A line that a search gives: a file, the number of a line in it, and its bytes.
#[derive(Clone, Debug, PartialEq, Eq)]
pub struct RawRecord {
    pub display_path: String,
    pub line: u64,
    pub kind: RecordKind,
    pub bytes: Vec<u8>,
}

/// What a `RawRecord` says.
pub struct RawRecordModel {
    pub display_path: Seq<char>,
    pub line: u64,
    pub kind: RecordKind,
    pub bytes: Seq<u8>,
}

impl DeepView for RawRecord {
    type V = RawRecordModel;

    open spec fn deep_view(&self) -> RawRecordModel {
        RawRecordModel {
            display_path: self.display_path@,
            line: self.line,
            kind: self.kind,
            bytes: self.bytes@,
        }
    }
}

/// What is projected: the identifier, the records, and how many bytes the search gave.
#[derive(Debug, PartialEq, Eq)]
pub struct InternalContextPacketV1 {
    pub query: String,
    pub records: Vec<RawRecord>,
    pub raw_bytes: usize,
}

#[derive(Clone, Copy, Debug, PartialEq, Eq, Structural)]
pub enum ProjectionError {
    TooLarge,
    Invalid,
}

/// Some part of a path from `i` on is not a name.
pub open spec fn nameless_from(parts: Seq<Seq<char>>, i: int) -> bool
    decreases parts.len() - i,
{
    if i < 0 || i >= parts.len() {
        false
    } else {
        parts[i].len() == 0 || parts[i] == "."@ || parts[i] == ".."@ || nameless_from(parts, i + 1)
    }
}

/// The path without a leading dot.
pub open spec fn without_dot(path: Seq<char>) -> Seq<char> {
    match text::after_prefix(path, "./"@) {
        Some(rest) => rest,
        None => path,
    }
}

/// A path below the workspace as it is looked up and shown.
pub open spec fn lookup_path(path: Seq<char>) -> Option<Seq<char>> {
    let shown = without_dot(text::slashed(path));
    if path.len() == 0 || path.contains('\0') || shown.len() == 0 || text::begins(shown, "/"@)
        || nameless_from(text::pieces(shown, '/'), 0) {
        None
    } else {
        Some(shown)
    }
}

/// A path below the workspace as it is looked up and shown.
pub fn normalize_raw_relative_path(path: &str) -> (r: Option<String>)
    ensures
        r.deep_view() == lookup_path(path@),
{
    let chars = text::to_chars(path);
    if chars.len() == 0 || text::holds(chars.as_slice(), '\0') {
        return None;
    }
    let slashes = text::to_slashes(chars.as_slice());
    let shown = match text::strip_prefix(slashes.as_slice(), "./") {
        Some(rest) => rest,
        None => slashes.as_slice(),
    };
    if shown.len() == 0 || text::starts_with(shown, "/") {
        return None;
    }
    let parts = text::split(shown, '/');
    let ghost all = text::views(parts@);
    let mut i: usize = 0;
    while i < parts.len()
        invariant
            i <= parts@.len(),
            all == text::views(parts@),
            all == text::pieces(shown@, '/'),
            shown@ == without_dot(text::slashed(path@)),
            nameless_from(all, 0) == nameless_from(all, i as int),
        decreases parts@.len() - i,
    {
        assert(all[i as int] == parts@[i as int]@);
        if parts[i].len() == 0 || text::is(parts[i], ".") || text::is(parts[i], "..") {
            return None;
        }
        i += 1;
    }
    Some(text::to_text(shown))
}

/// A byte that is a digit.
pub open spec fn digit_byte(b: u8) -> bool {
    48 <= b <= 57
}

/// Where the digits end that begin at `i`.
pub open spec fn digits_end(raw: Seq<u8>, i: int) -> int
    decreases raw.len() - i,
{
    if i < 0 || i >= raw.len() || !digit_byte(raw[i]) {
        i
    } else {
        digits_end(raw, i + 1)
    }
}

/// A colon or a hyphen at `i` that digits and the same byte again follow.
pub open spec fn numbered_at(raw: Seq<u8>, i: int) -> bool {
    let end = digits_end(raw, i + 1);
    (raw[i] == 58 || raw[i] == 45) && end > i + 1 && end < raw.len() && raw[end] == raw[i]
}

/// The number that the digits between two places are, where it is one from one on.
pub open spec fn line_number(raw: Seq<u8>, start: int, end: int) -> Option<u64> {
    let digits = raw.subrange(start, end);
    if !vstd::utf8::valid_utf8(digits) {
        None
    } else {
        match text::number_of(vstd::utf8::decode_utf8(digits)) {
            Some(line) => if line > 0 {
                Some(line)
            } else {
                None
            },
            None => None,
        }
    }
}

/// The readings of a line as a record, from `i` on: one for each place at which the path may
/// end, where a file lies there. Nothing where a path that may be meant is unsafe.
pub open spec fn readings_from(raw: Seq<u8>, present: Seq<Seq<char>>, i: int) -> Option<
    Seq<RawRecordModel>,
>
    decreases raw.len() - i,
{
    if i < 0 || i >= raw.len() {
        Some(seq![])
    } else if !numbered_at(raw, i) {
        readings_from(raw, present, i + 1)
    } else {
        let end = digits_end(raw, i + 1);
        let path = raw.subrange(0, i);
        if !vstd::utf8::valid_utf8(path) {
            None
        } else {
            match lookup_path(vstd::utf8::decode_utf8(path)) {
                None => None,
                Some(shown) => if !present.contains(shown) {
                    readings_from(raw, present, i + 1)
                } else {
                    match (
                        line_number(raw, i + 1, end),
                        readings_from(raw, present, i + 1),
                    ) {
                        (Some(line), Some(rest)) => Some(
                            seq![
                                RawRecordModel {
                                    display_path: shown,
                                    line,
                                    kind: if raw[i] == 58 {
                                        RecordKind::Match
                                    } else {
                                        RecordKind::Context
                                    },
                                    bytes: raw.subrange(end + 1, raw.len() as int),
                                },
                            ] + rest,
                        ),
                        _ => None,
                    }
                },
            }
        }
    }
}

/// The record that a line is, where there is exactly one reading of it.
pub open spec fn record_of(raw: Seq<u8>, present: Seq<Seq<char>>) -> Option<RawRecordModel> {
    match readings_from(raw, present, 0) {
        Some(readings) => if readings.len() == 1 {
            Some(readings[0])
        } else {
            None
        },
        None => None,
    }
}

/// The lines of a search, each without its line feed; `start` is where a line begins that
/// has no line feed before `i`.
pub open spec fn raw_lines_from(raw: Seq<u8>, start: int, i: int) -> Seq<Seq<u8>>
    decreases raw.len() - i,
{
    if i < 0 || i >= raw.len() {
        if start < raw.len() {
            seq![raw.subrange(start, raw.len() as int)]
        } else {
            seq![]
        }
    } else if raw[i] == 10 {
        seq![raw.subrange(start, i)] + raw_lines_from(raw, i + 1, i + 1)
    } else {
        raw_lines_from(raw, start, i + 1)
    }
}

/// The line that stands between groups of records.
pub open spec fn is_separator(line: Seq<u8>) -> bool {
    line == seq![45u8, 45u8]
}

/// The records of the lines from `i` on behind those already read. Nothing where a line is
/// empty or is no record, or where there are too many.
pub open spec fn records_from(
    lines: Seq<Seq<u8>>,
    present: Seq<Seq<char>>,
    i: int,
    records: Seq<RawRecordModel>,
) -> Option<Seq<RawRecordModel>>
    decreases lines.len() - i,
{
    if i < 0 || i >= lines.len() {
        Some(records)
    } else if is_separator(lines[i]) {
        records_from(lines, present, i + 1, records)
    } else if lines[i].len() == 0 {
        None
    } else {
        match record_of(lines[i], present) {
            Some(record) => if records.len() >= MAX_RAW_MATCH_LOCATIONS {
                None
            } else {
                records_from(lines, present, i + 1, records.push(record))
            },
            None => None,
        }
    }
}

/// The records that a search gives, for the files that lie in the workspace.
pub open spec fn records_of(raw: Seq<u8>, present: Seq<Seq<char>>) -> Option<Seq<RawRecordModel>> {
    match records_from(raw_lines_from(raw, 0, 0), present, 0, seq![]) {
        Some(records) => if records.len() == 0 {
            None
        } else {
            Some(records)
        },
        None => None,
    }
}

fn find_digits_end(raw: &[u8], start: usize) -> (r: usize)
    requires
        start <= raw@.len(),
    ensures
        r == digits_end(raw@, start as int),
        start <= r <= raw@.len(),
{
    let mut i: usize = start;
    while i < raw.len() && 48 <= raw[i] && raw[i] <= 57
        invariant
            start <= i <= raw@.len(),
            digits_end(raw@, start as int) == digits_end(raw@, i as int),
        decreases raw@.len() - i,
    {
        i += 1;
    }
    i
}

fn holds_text(list: &Vec<String>, wanted: &str) -> (r: bool)
    ensures
        r == list.deep_view().contains(wanted@),
{
    let ghost all = list.deep_view();
    let mut i: usize = 0;
    while i < list.len()
        invariant
            i <= list@.len(),
            all == list.deep_view(),
            forall|k: int| 0 <= k < i ==> all[k] != wanted@,
        decreases list@.len() - i,
    {
        assert(all[i as int] == list@[i as int]@);
        if text::same_text(list[i].as_str(), wanted) {
            return true;
        }
        i += 1;
    }
    false
}

fn parse_line_number(raw: &[u8], start: usize, end: usize) -> (r: Option<u64>)
    requires
        start <= end <= raw@.len(),
    ensures
        r == line_number(raw@, start as int, end as int),
{
    let digits = vstd::slice::slice_subrange(raw, start, end);
    match text::decode(digits) {
        Ok(digits) => {
            let chars = text::to_chars(digits.as_str());
            match text::parse_number(chars.as_slice()) {
                Some(line) => if line > 0 {
                    Some(line)
                } else {
                    None
                },
                None => None,
            }
        },
        Err(_) => None,
    }
}

/// The path that may end at `i`, where digits follow, as it is looked up.
fn path_upto(raw: &[u8], i: usize) -> (r: Option<String>)
    requires
        i <= raw@.len(),
    ensures
        match r {
            Some(path) => vstd::utf8::valid_utf8(raw@.subrange(0, i as int)) && lookup_path(
                vstd::utf8::decode_utf8(raw@.subrange(0, i as int)),
            ) == Some(path@),
            None => vstd::utf8::valid_utf8(raw@.subrange(0, i as int)) ==> lookup_path(
                vstd::utf8::decode_utf8(raw@.subrange(0, i as int)),
            ) is None,
        },
{
    match text::decode(vstd::slice::slice_subrange(raw, 0, i)) {
        Ok(path) => normalize_raw_relative_path(path.as_str()),
        Err(_) => None,
    }
}

/// Reads one line as a record. `present` are the paths at which a file lies in the workspace.
pub fn parse_raw_record(raw: &[u8], present: &Vec<String>) -> (r: Option<RawRecord>)
    ensures
        r.deep_view() == record_of(raw@, present.deep_view()),
{
    let ghost files = present.deep_view();
    let count: usize = raw.len();
    let mut readings: Vec<RawRecord> = Vec::new();
    assert(readings.deep_view() =~= Seq::empty());
    let mut i: usize = 0;
    while i < count
        invariant
            i <= count,
            count == raw@.len(),
            files == present.deep_view(),
            readings_from(raw@, files, 0) == match readings_from(raw@, files, i as int) {
                Some(rest) => Some(readings.deep_view() + rest),
                None => None,
            },
        decreases count - i,
    {
        let ghost before = readings.deep_view();
        let ghost rest = readings_from(raw@, files, i as int + 1);
        if raw[i] == 58 || raw[i] == 45 {
            let end: usize = find_digits_end(raw, i + 1);
            if end > i + 1 && end < count && raw[end] == raw[i] {
                match path_upto(raw, i) {
                    Some(path) => {
                        if holds_text(present, path.as_str()) {
                            match parse_line_number(raw, i + 1, end) {
                                Some(line) => {
                                    let kind = if raw[i] == 58 {
                                        RecordKind::Match
                                    } else {
                                        RecordKind::Context
                                    };
                                    let bytes = vstd::slice::slice_to_vec(
                                        vstd::slice::slice_subrange(raw, end + 1, count),
                                    );
                                    let record = RawRecord {
                                        display_path: path,
                                        line,
                                        kind,
                                        bytes,
                                    };
                                    assert(record.deep_view() == (RawRecordModel {
                                        display_path: record.display_path@,
                                        line,
                                        kind,
                                        bytes: raw@.subrange(end + 1, count as int),
                                    }));
                                    list::push(&mut readings, record);
                                    proof {
                                        if let Some(rest) = rest {
                                            assert(readings.deep_view() + rest =~= before + (seq![
                                                record.deep_view(),
                                            ] + rest));
                                        }
                                    }
                                },
                                None => {
                                    return None;
                                },
                            }
                        }
                    },
                    None => {
                        return None;
                    },
                }
            }
        }
        i += 1;
    }
    assert(readings.deep_view() + Seq::<RawRecordModel>::empty() =~= readings.deep_view());
    if readings.len() == 1 {
        assert(readings.deep_view()[0] == readings@[0].deep_view());
        readings.pop()
    } else {
        None
    }
}

/// The lines of a search by their bytes.
pub open spec fn line_views(lines: Seq<&[u8]>) -> Seq<Seq<u8>> {
    Seq::new(lines.len(), |i: int| lines[i]@)
}

fn raw_lines(raw: &[u8]) -> (r: Vec<&[u8]>)
    ensures
        line_views(r@) == raw_lines_from(raw@, 0, 0),
{
    let count: usize = raw.len();
    let mut lines: Vec<&[u8]> = Vec::new();
    let mut start: usize = 0;
    let mut i: usize = 0;
    while i < count
        invariant
            start <= i <= count,
            count == raw@.len(),
            raw_lines_from(raw@, 0, 0) =~= line_views(lines@) + raw_lines_from(
                raw@,
                start as int,
                i as int,
            ),
        decreases count - i,
    {
        if raw[i] == 10 {
            let ghost before = lines@;
            lines.push(vstd::slice::slice_subrange(raw, start, i));
            assert(line_views(lines@) =~= line_views(before).push(
                raw@.subrange(start as int, i as int),
            ));
            start = i + 1;
        }
        i += 1;
    }
    if start < count {
        let ghost before = lines@;
        lines.push(vstd::slice::slice_subrange(raw, start, count));
        assert(line_views(lines@) =~= line_views(before).push(
            raw@.subrange(start as int, count as int),
        ));
    }
    assert(line_views(lines@) =~= raw_lines_from(raw@, 0, 0));
    lines
}

fn is_separator_line(line: &[u8]) -> (r: bool)
    ensures
        r == is_separator(line@),
{
    let r = line.len() == 2 && line[0] == 45 && line[1] == 45;
    assert(r ==> line@ =~= seq![45u8, 45u8]);
    r
}

/// Reads what a search gave. `present` are the paths at which a file lies in the workspace.
pub fn parse_raw_records(raw: &[u8], present: &Vec<String>) -> (r: Option<Vec<RawRecord>>)
    ensures
        r.deep_view() == records_of(raw@, present.deep_view()),
{
    let ghost files = present.deep_view();
    let lines = raw_lines(raw);
    let ghost all = line_views(lines@);
    let mut records: Vec<RawRecord> = Vec::new();
    assert(records.deep_view() =~= Seq::empty());
    let mut i: usize = 0;
    while i < lines.len()
        invariant
            i <= lines@.len(),
            files == present.deep_view(),
            all == line_views(lines@),
            all == raw_lines_from(raw@, 0, 0),
            records_from(all, files, 0, seq![]) == records_from(
                all,
                files,
                i as int,
                records.deep_view(),
            ),
        decreases lines@.len() - i,
    {
        assert(all[i as int] == lines@[i as int]@);
        let line = lines[i];
        if !is_separator_line(line) {
            if line.len() == 0 {
                return None;
            }
            match parse_raw_record(line, present) {
                Some(record) => {
                    assert(records.deep_view().len() == records@.len());
                    if records.len() >= MAX_RAW_MATCH_LOCATIONS {
                        return None;
                    }
                    list::push(&mut records, record);
                },
                None => {
                    return None;
                },
            }
        }
        i += 1;
    }
    assert(records.deep_view().len() == records@.len());
    if records.len() == 0 {
        None
    } else {
        Some(records)
    }
}

/// The paths with those from `i` on that a line may name.
pub open spec fn lookups_in_line(raw: Seq<u8>, i: int, paths: Seq<Seq<char>>) -> Seq<Seq<char>>
    decreases raw.len() - i,
{
    if i < 0 || i >= raw.len() {
        paths
    } else if !numbered_at(raw, i) || !vstd::utf8::valid_utf8(raw.subrange(0, i)) {
        lookups_in_line(raw, i + 1, paths)
    } else {
        match lookup_path(vstd::utf8::decode_utf8(raw.subrange(0, i))) {
            Some(path) => lookups_in_line(raw, i + 1, sorted::inserted(paths, path)),
            None => lookups_in_line(raw, i + 1, paths),
        }
    }
}

/// The paths with those that the lines from `i` on may name.
pub open spec fn lookups_from(lines: Seq<Seq<u8>>, i: int, paths: Seq<Seq<char>>) -> Seq<Seq<char>>
    decreases lines.len() - i,
{
    if i < 0 || i >= lines.len() {
        paths
    } else {
        lookups_from(lines, i + 1, lookups_in_line(lines[i], 0, paths))
    }
}

fn add_lookups(raw: &[u8], paths: &mut Vec<String>)
    ensures
        final(paths).deep_view() == lookups_in_line(raw@, 0, old(paths).deep_view()),
{
    let ghost start = paths.deep_view();
    let count: usize = raw.len();
    let mut i: usize = 0;
    while i < count
        invariant
            i <= count,
            count == raw@.len(),
            start == old(paths).deep_view(),
            lookups_in_line(raw@, 0, start) == lookups_in_line(raw@, i as int, paths.deep_view()),
        decreases count - i,
    {
        if raw[i] == 58 || raw[i] == 45 {
            let end: usize = find_digits_end(raw, i + 1);
            if end > i + 1 && end < count && raw[end] == raw[i] {
                if let Some(path) = path_upto(raw, i) {
                    sorted::insert(paths, path);
                }
            }
        }
        i += 1;
    }
}

/// A file lies in the workspace, for what lies at its path, without links.
pub fn is_present(canonical: &str, workspace: &str, is_file: bool) -> (r: bool)
    ensures
        r == (path::within(canonical@, workspace@) && is_file),
{
    path::is_within(canonical, workspace) && is_file
}

/// The paths that what a search gave may name: those at which it matters whether a file lies
/// in the workspace.
pub fn paths_to_look_up(raw: &[u8]) -> (r: Vec<String>)
    ensures
        r.deep_view() == lookups_from(raw_lines_from(raw@, 0, 0), 0, seq![]),
{
    let lines = raw_lines(raw);
    let ghost all = line_views(lines@);
    let mut paths: Vec<String> = Vec::new();
    assert(paths.deep_view() =~= Seq::empty());
    let mut i: usize = 0;
    while i < lines.len()
        invariant
            i <= lines@.len(),
            all == line_views(lines@),
            all == raw_lines_from(raw@, 0, 0),
            lookups_from(all, 0, seq![]) == lookups_from(all, i as int, paths.deep_view()),
        decreases lines@.len() - i,
    {
        assert(all[i as int] == lines@[i as int]@);
        add_lookups(lines[i], &mut paths);
        i += 1;
    }
    paths
}

/// Some record from `i` on cannot be shown: its bytes are no text, or hold a zero byte.
pub open spec fn unshowable_from(records: Seq<RawRecordModel>, i: int) -> bool
    decreases records.len() - i,
{
    if i < 0 || i >= records.len() {
        false
    } else {
        !vstd::utf8::valid_utf8(records[i].bytes) || records[i].bytes.contains(0u8)
            || unshowable_from(records, i + 1)
    }
}

/// The paths of the records from `i` on, in order and each once, with those in `paths`.
pub open spec fn paths_from(records: Seq<RawRecordModel>, i: int, paths: Seq<Seq<char>>) -> Seq<
    Seq<char>,
>
    decreases records.len() - i,
{
    if i < 0 || i >= records.len() {
        paths
    } else {
        paths_from(records, i + 1, sorted::inserted(paths, records[i].display_path))
    }
}

/// The paths of the records, in order and each once.
pub open spec fn paths_of(records: Seq<RawRecordModel>) -> Seq<Seq<char>> {
    paths_from(records, 0, seq![])
}

/// The records from `i` on with the given path, in the order in which they came.
pub open spec fn group_from(records: Seq<RawRecordModel>, path: Seq<char>, i: int) -> Seq<
    RawRecordModel,
>
    decreases records.len() - i,
{
    if i < 0 || i >= records.len() {
        seq![]
    } else if records[i].display_path == path {
        seq![records[i]] + group_from(records, path, i + 1)
    } else {
        group_from(records, path, i + 1)
    }
}

/// A record as it is shown.
pub open spec fn shown_record(record: RawRecordModel) -> Seq<char> {
    "  "@ + text::decimal(record.line as nat) + (if record.kind == RecordKind::Match {
        seq![':']
    } else {
        seq!['-']
    }) + vstd::utf8::decode_utf8(record.bytes) + seq!['\n']
}

/// The records from `i` on as they are shown.
pub open spec fn shown_records(records: Seq<RawRecordModel>, i: int) -> Seq<char>
    decreases records.len() - i,
{
    if i < 0 || i >= records.len() {
        seq![]
    } else {
        shown_record(records[i]) + shown_records(records, i + 1)
    }
}

/// The groups of the paths from `i` on as they are shown.
pub open spec fn shown_groups(
    records: Seq<RawRecordModel>,
    paths: Seq<Seq<char>>,
    i: int,
) -> Seq<char>
    decreases paths.len() - i,
{
    if i < 0 || i >= paths.len() {
        seq![]
    } else {
        paths[i] + ":\n"@ + shown_records(group_from(records, paths[i], 0), 0) + shown_groups(
            records,
            paths,
            i + 1,
        )
    }
}

/// The projection of records: the identifier, then for each path, in order, its records.
pub open spec fn projected(query: Seq<char>, records: Seq<RawRecordModel>) -> Seq<char> {
    "query "@ + query + seq!['\n'] + shown_groups(records, paths_of(records), 0)
}

/// The projection, or why there is none.
pub open spec fn projection_of(
    query: Seq<char>,
    records: Seq<RawRecordModel>,
    raw_bytes: nat,
) -> Result<Seq<char>, ProjectionError> {
    if !search::identifier(query) || records.len() == 0 || raw_bytes == 0 || unshowable_from(
        records,
        0,
    ) {
        Err(ProjectionError::Invalid)
    } else if text::byte_len(projected(query, records)) > MAX_MODEL_PROJECTION_BYTES {
        Err(ProjectionError::TooLarge)
    } else {
        Ok(projected(query, records))
    }
}

fn holds_zero(bytes: &[u8]) -> (r: bool)
    ensures
        r == bytes@.contains(0u8),
{
    let mut i: usize = 0;
    while i < bytes.len()
        invariant
            i <= bytes@.len(),
            forall|k: int| 0 <= k < i ==> bytes@[k] != 0,
        decreases bytes@.len() - i,
    {
        if bytes[i] == 0 {
            return true;
        }
        i += 1;
    }
    false
}

fn is_unshowable(records: &Vec<RawRecord>) -> (r: bool)
    ensures
        r == unshowable_from(records.deep_view(), 0),
{
    let ghost all = records.deep_view();
    let mut i: usize = 0;
    while i < records.len()
        invariant
            i <= records@.len(),
            all == records.deep_view(),
            unshowable_from(all, 0) == unshowable_from(all, i as int),
        decreases records@.len() - i,
    {
        assert(all[i as int] == records@[i as int].deep_view());
        let bytes = records[i].bytes.as_slice();
        if text::decode(bytes).is_err() || holds_zero(bytes) {
            return true;
        }
        i += 1;
    }
    false
}

fn collect_paths(records: &Vec<RawRecord>) -> (r: Vec<String>)
    ensures
        r.deep_view() == paths_of(records.deep_view()),
{
    let ghost all = records.deep_view();
    let mut paths: Vec<String> = Vec::new();
    assert(paths.deep_view() =~= Seq::empty());
    let mut i: usize = 0;
    while i < records.len()
        invariant
            i <= records@.len(),
            all == records.deep_view(),
            paths_of(all) == paths_from(all, i as int, paths.deep_view()),
        decreases records@.len() - i,
    {
        assert(all[i as int] == records@[i as int].deep_view());
        sorted::insert(&mut paths, text::copy(records[i].display_path.as_str()));
        i += 1;
    }
    paths
}

fn show_record(record: &RawRecord, out: &mut Vec<char>)
    requires
        vstd::utf8::valid_utf8(record.bytes@),
    ensures
        final(out)@ == old(out)@ + shown_record(record.deep_view()),
{
    let source = match text::decode(record.bytes.as_slice()) {
        Ok(source) => source,
        Err(_) => String::new(),
    };
    text::append(out, text::to_chars("  ").as_slice());
    text::append(out, text::format_number(record.line).as_slice());
    if record.kind == RecordKind::Match {
        out.push(':');
    } else {
        out.push('-');
    }
    text::append(out, text::to_chars(source.as_str()).as_slice());
    out.push('\n');
    assert(out@ =~= old(out)@ + shown_record(record.deep_view()));
}

proof fn showable_records(records: Seq<RawRecordModel>, i: int, k: int)
    requires
        0 <= i <= k < records.len(),
        !unshowable_from(records, i),
    ensures
        vstd::utf8::valid_utf8(records[k].bytes),
    decreases k - i,
{
    if i < k {
        showable_records(records, i + 1, k);
    }
}

fn show_group(records: &Vec<RawRecord>, path: &str, out: &mut Vec<char>)
    requires
        !unshowable_from(records.deep_view(), 0),
    ensures
        final(out)@ == old(out)@ + shown_records(
            group_from(records.deep_view(), path@, 0),
            0,
        ),
{
    let ghost all = records.deep_view();
    let ghost start = out@;
    let ghost group = group_from(all, path@, 0);
    let ghost mut shown: int = 0;
    let mut i: usize = 0;
    while i < records.len()
        invariant
            i <= records@.len(),
            all == records.deep_view(),
            !unshowable_from(all, 0),
            group == group_from(all, path@, 0),
            0 <= shown <= group.len(),
            group.skip(shown) =~= group_from(all, path@, i as int),
            start + shown_records(group, 0) =~= out@ + shown_records(group, shown),
        decreases records@.len() - i,
    {
        assert(all[i as int] == records@[i as int].deep_view());
        if text::same_text(records[i].display_path.as_str(), path) {
            proof {
                showable_records(all, 0, i as int);
                let rest = group_from(all, path@, i + 1);
                assert(group_from(all, path@, i as int) == seq![all[i as int]] + rest);
                assert(group.skip(shown).len() == 1 + rest.len());
                assert(group.skip(shown)[0] == group[shown]);
                assert(group[shown] == all[i as int]);
            }
            show_record(&records[i], out);
            proof {
                let rest = group_from(all, path@, i + 1);
                assert(group.skip(shown) =~= seq![all[i as int]] + rest);
                assert(group.skip(shown + 1) =~= group.skip(shown).skip(1));
                assert((seq![all[i as int]] + rest).skip(1) =~= rest);
                shown = shown + 1;
            }
        }
        i += 1;
    }
    assert(group.skip(shown).len() == 0);
    assert(out@ =~= start + shown_records(group, 0));
}

/// Projects the records of a search, or says why they cannot be.
pub fn render_projection(packet: &InternalContextPacketV1) -> (r: Result<String, ProjectionError>)
    ensures
        match (
            r,
            projection_of(
                packet.query@,
                packet.records.deep_view(),
                packet.raw_bytes as nat,
            ),
        ) {
            (Ok(shown), Ok(s)) => shown@ == s,
            (Err(error), Err(e)) => error == e,
            _ => false,
        },
{
    let ghost records = packet.records.deep_view();
    assert(records.len() == packet.records@.len());
    if !search::is_identifier(packet.query.as_str()) || packet.records.len() == 0
        || packet.raw_bytes == 0 || is_unshowable(&packet.records) {
        return Err(ProjectionError::Invalid);
    }
    let paths = collect_paths(&packet.records);
    let ghost all = paths.deep_view();
    let mut out = text::to_chars("query ");
    text::append(&mut out, text::to_chars(packet.query.as_str()).as_slice());
    out.push('\n');
    let ghost start = out@;
    assert(start =~= "query "@ + packet.query@ + seq!['\n']);
    let mut i: usize = 0;
    while i < paths.len()
        invariant
            i <= paths@.len(),
            records == packet.records.deep_view(),
            !unshowable_from(records, 0),
            all == paths.deep_view(),
            start + shown_groups(records, all, 0) =~= out@ + shown_groups(records, all, i as int),
        decreases paths@.len() - i,
    {
        assert(all[i as int] == paths@[i as int]@);
        text::append(&mut out, text::to_chars(paths[i].as_str()).as_slice());
        text::append(&mut out, text::to_chars(":\n").as_slice());
        show_group(&packet.records, paths[i].as_str(), &mut out);
        i += 1;
    }
    assert(out@ =~= projected(packet.query@, records));
    let shown = text::to_text(out.as_slice());
    if text::count_bytes(shown.as_str()) > MAX_MODEL_PROJECTION_BYTES {
        Err(ProjectionError::TooLarge)
    } else {
        Ok(shown)
    }
}

proof fn paths_are_collected(records: Seq<RawRecordModel>, i: int, paths: Seq<Seq<char>>)
    requires
        0 <= i <= records.len(),
        sorted::increasing(paths),
    ensures
        sorted::increasing(paths_from(records, i, paths)),
        forall|x: Seq<char>| #[trigger]
            paths.contains(x) ==> paths_from(records, i, paths).contains(x),
        forall|k: int|
            i <= k < records.len() ==> paths_from(records, i, paths).contains(
                (#[trigger] records[k]).display_path,
            ),
    decreases records.len() - i,
{
    if i < records.len() {
        sorted::insertion_keeps_order(paths, records[i].display_path);
        paths_are_collected(records, i + 1, sorted::inserted(paths, records[i].display_path));
        let next = sorted::inserted(paths, records[i].display_path);
        assert(next.contains(records[i].display_path));
        assert forall|x: Seq<char>| #[trigger] paths.contains(x) implies paths_from(
            records,
            i,
            paths,
        ).contains(x) by {
            assert(next.contains(x));
        }
    }
}

/// The records in the order in which they are shown, for the paths from `i` on.
pub open spec fn kept_from(
    records: Seq<RawRecordModel>,
    paths: Seq<Seq<char>>,
    i: int,
) -> Seq<RawRecordModel>
    decreases paths.len() - i,
{
    if i < 0 || i >= paths.len() {
        seq![]
    } else {
        group_from(records, paths[i], 0) + kept_from(records, paths, i + 1)
    }
}

proof fn groups_hold_their_records(
    records: Seq<RawRecordModel>,
    path: Seq<char>,
    i: int,
    x: RawRecordModel,
)
    requires
        0 <= i <= records.len(),
    ensures
        group_from(records, path, i).to_multiset().count(x) == (if x.display_path == path {
            records.skip(i).to_multiset().count(x)
        } else {
            0
        }),
    decreases records.len() - i,
{
    broadcast use vstd::seq_lib::group_to_multiset_ensures;

    let rest = records.skip(i);
    if i < records.len() {
        groups_hold_their_records(records, path, i + 1, x);
        assert(rest =~= seq![records[i]] + records.skip(i + 1));
        vstd::seq_lib::lemma_multiset_commutative(seq![records[i]], records.skip(i + 1));
        vstd::seq_lib::lemma_multiset_commutative(
            seq![records[i]],
            group_from(records, path, i + 1),
        );
        assert(seq![records[i]] =~= Seq::<RawRecordModel>::empty().push(records[i]));
        assert(Seq::<RawRecordModel>::empty().to_multiset().count(x) == 0);
        assert(seq![records[i]].to_multiset().count(x) == (if records[i] == x {
            1nat
        } else {
            0
        }));
    } else {
        assert(rest =~= Seq::<RawRecordModel>::empty());
    }
}

proof fn all_groups_hold_a_record(
    records: Seq<RawRecordModel>,
    paths: Seq<Seq<char>>,
    i: int,
    x: RawRecordModel,
)
    requires
        0 <= i <= paths.len(),
        sorted::increasing(paths),
    ensures
        kept_from(records, paths, i).to_multiset().count(x) == (if exists|k: int|
            i <= k < paths.len() && #[trigger] paths[k] == x.display_path {
            records.to_multiset().count(x)
        } else {
            0
        }),
    decreases paths.len() - i,
{
    broadcast use vstd::seq_lib::group_to_multiset_ensures;

    if i < paths.len() {
        all_groups_hold_a_record(records, paths, i + 1, x);
        groups_hold_their_records(records, paths[i], 0, x);
        assert(records.skip(0) =~= records);
        vstd::seq_lib::lemma_multiset_commutative(
            group_from(records, paths[i], 0),
            kept_from(records, paths, i + 1),
        );
        if paths[i] == x.display_path {
            assert forall|k: int| i + 1 <= k < paths.len() implies #[trigger] paths[k]
                != x.display_path by {
                text::before_is_total(paths[i], paths[k]);
                assert(text::before(paths[i], paths[k]));
            }
        } else if exists|k: int| i <= k < paths.len() && #[trigger] paths[k] == x.display_path {
            let k = choose|k: int| i <= k < paths.len() && #[trigger] paths[k] == x.display_path;
            assert(i + 1 <= k);
        }
    } else {
        assert(Seq::<RawRecordModel>::empty().to_multiset().count(x) == 0);
    }
}

/// The records path by path, as they can be read back from a projection, are the records that
/// the search gave: none is left out, repeated or made up.
pub proof fn projections_keep_every_record(records: Seq<RawRecordModel>)
    ensures
        kept_from(records, paths_of(records), 0).to_multiset() =~= records.to_multiset(),
        sorted::increasing(paths_of(records)),
{
    broadcast use vstd::seq_lib::group_to_multiset_ensures;

    let paths = paths_of(records);
    paths_are_collected(records, 0, seq![]);
    assert forall|x: RawRecordModel|
        kept_from(records, paths, 0).to_multiset().count(x) == records.to_multiset().count(x) by {
        all_groups_hold_a_record(records, paths, 0, x);
        if records.to_multiset().count(x) > 0 {
            assert(records.contains(x));
            let k = records.index_of(x);
            assert(paths.contains(records[k].display_path));
            let j = paths.index_of(x.display_path);
            assert(paths[j] == x.display_path);
        }
    }
}

proof fn lookups_grow(raw: Seq<u8>, i: int, paths: Seq<Seq<char>>)
    requires
        0 <= i,
        sorted::increasing(paths),
    ensures
        sorted::increasing(lookups_in_line(raw, i, paths)),
        forall|x: Seq<char>| #[trigger]
            paths.contains(x) ==> lookups_in_line(raw, i, paths).contains(x),
        forall|k: int|
            i <= k < raw.len() && #[trigger] numbered_at(raw, k) && vstd::utf8::valid_utf8(
                raw.subrange(0, k),
            ) ==> (lookup_path(vstd::utf8::decode_utf8(raw.subrange(0, k))) matches Some(path)
                ==> lookups_in_line(raw, i, paths).contains(path)),
    decreases raw.len() - i,
{
    if i < raw.len() {
        if numbered_at(raw, i) && vstd::utf8::valid_utf8(raw.subrange(0, i)) {
            match lookup_path(vstd::utf8::decode_utf8(raw.subrange(0, i))) {
                Some(path) => {
                    sorted::insertion_keeps_order(paths, path);
                    lookups_grow(raw, i + 1, sorted::inserted(paths, path));
                    let next = sorted::inserted(paths, path);
                    assert(next.contains(path));
                    assert forall|x: Seq<char>| #[trigger] paths.contains(x) implies lookups_in_line(
                        raw,
                        i,
                        paths,
                    ).contains(x) by {
                        assert(next.contains(x));
                    }
                },
                None => {
                    lookups_grow(raw, i + 1, paths);
                },
            }
        } else {
            lookups_grow(raw, i + 1, paths);
        }
    }
}

/// Two lists hold the same of the given paths.
pub open spec fn agree_on(
    paths: Seq<Seq<char>>,
    present: Seq<Seq<char>>,
    other: Seq<Seq<char>>,
) -> bool {
    forall|x: Seq<char>| #[trigger]
        paths.contains(x) ==> (present.contains(x) <==> other.contains(x))
}

proof fn readings_go_by_lookups(
    raw: Seq<u8>,
    present: Seq<Seq<char>>,
    other: Seq<Seq<char>>,
    i: int,
)
    requires
        0 <= i,
        forall|k: int|
            i <= k < raw.len() && #[trigger] numbered_at(raw, k) && vstd::utf8::valid_utf8(
                raw.subrange(0, k),
            ) ==> (lookup_path(vstd::utf8::decode_utf8(raw.subrange(0, k))) matches Some(path)
                ==> (present.contains(path) <==> other.contains(path))),
    ensures
        readings_from(raw, present, i) == readings_from(raw, other, i),
    decreases raw.len() - i,
{
    if i < raw.len() {
        readings_go_by_lookups(raw, present, other, i + 1);
        assert(numbered_at(raw, i) || !numbered_at(raw, i));
    }
}

proof fn lines_go_by_lookups(
    lines: Seq<Seq<u8>>,
    present: Seq<Seq<char>>,
    other: Seq<Seq<char>>,
    i: int,
    paths: Seq<Seq<char>>,
    records: Seq<RawRecordModel>,
)
    requires
        0 <= i,
        sorted::increasing(paths),
        agree_on(lookups_from(lines, i, paths), present, other),
    ensures
        records_from(lines, present, i, records) == records_from(lines, other, i, records),
        forall|x: Seq<char>| #[trigger]
            paths.contains(x) ==> lookups_from(lines, i, paths).contains(x),
    decreases lines.len() - i,
{
    if i < lines.len() {
        let next = lookups_in_line(lines[i], 0, paths);
        lookups_grow(lines[i], 0, paths);
        lines_go_by_lookups(lines, present, other, i + 1, next, records);
        let all = lookups_from(lines, i, paths);
        assert(all == lookups_from(lines, i + 1, next));
        assert forall|k: int|
            0 <= k < lines[i].len() && #[trigger] numbered_at(lines[i], k)
                && vstd::utf8::valid_utf8(lines[i].subrange(0, k)) implies (lookup_path(
            vstd::utf8::decode_utf8(lines[i].subrange(0, k)),
        ) matches Some(path) ==> (present.contains(path) <==> other.contains(path))) by {
            if let Some(path) = lookup_path(vstd::utf8::decode_utf8(lines[i].subrange(0, k))) {
                assert(next.contains(path));
                assert(all.contains(path));
            }
        }
        readings_go_by_lookups(lines[i], present, other, 0);
        if let Some(record) = record_of(lines[i], present) {
            lines_go_by_lookups(lines, present, other, i + 1, next, records.push(record));
        }
    }
}

/// What a search gave is read alike for two workspaces that hold the same of the paths that
/// are looked up.
pub proof fn only_looked_up_paths_matter(
    raw: Seq<u8>,
    present: Seq<Seq<char>>,
    other: Seq<Seq<char>>,
)
    requires
        agree_on(lookups_from(raw_lines_from(raw, 0, 0), 0, seq![]), present, other),
    ensures
        records_of(raw, present) == records_of(raw, other),
{
    lines_go_by_lookups(raw_lines_from(raw, 0, 0), present, other, 0, seq![], seq![]);
}

} // verus!
