//! Reading a projection back: the text holds the search and every record of it.

use vstd::prelude::*;
use crate::causal_context::capture::CaptureModel;
use crate::causal_context::gateway;
use crate::causal_context::gateway::{ConsumedRequestModel, OutcomeModel};
use crate::causal_context::lifecycle::GitHeadModel;
use crate::causal_context::records;
use crate::causal_context::records::{RawRecordModel, RecordKind};
use crate::causal_context::search;
use crate::sorted;
use crate::text;

verus! {

/// Where the line ends that goes on at `i`: at its line feed, or at the end of the text.
pub open spec fn line_end(s: Seq<char>, i: int) -> int
    decreases s.len() - i,
{
    if i < 0 || i >= s.len() {
        s.len() as int
    } else if s[i] == '\n' {
        i
    } else {
        line_end(s, i + 1)
    }
}

/// Where the digits end that go on at `i`.
pub open spec fn digits_end(s: Seq<char>, i: int) -> int
    decreases s.len() - i,
{
    if i < 0 || i >= s.len() || !text::ascii_digit(s[i]) {
        i
    } else {
        digits_end(s, i + 1)
    }
}

/// The number that digits write.
pub open spec fn value_of(digits: Seq<char>) -> int
    decreases digits.len(),
{
    if digits.len() == 0 {
        0
    } else {
        value_of(digits.drop_last()) * 10 + (digits.last() as int - '0' as int)
    }
}

/// The record that a line shows under a path: two spaces, the number of its line, a colon for
/// a match or a hyphen for what stands around one, and the text of the line.
pub open spec fn read_record(line: Seq<char>, path: Seq<char>) -> Option<RawRecordModel> {
    let end = digits_end(line, 2);
    if end >= line.len() || (line[end] != ':' && line[end] != '-') {
        None
    } else {
        Some(
            RawRecordModel {
                display_path: path,
                line: value_of(line.subrange(2, end)) as u64,
                kind: if line[end] == ':' {
                    RecordKind::Match
                } else {
                    RecordKind::Context
                },
                bytes: vstd::utf8::encode_utf8(line.skip(end + 1)),
            },
        )
    }
}

/// The records that lines show, where those before the next path stand under the given one.
pub open spec fn read_groups(shown: Seq<char>, path: Option<Seq<char>>) -> Option<
    Seq<RawRecordModel>,
>
    decreases shown.len(),
{
    let end = line_end(shown, 0);
    if shown.len() == 0 {
        Some(seq![])
    } else if !(0 <= end < shown.len()) {
        None
    } else {
        let line = shown.take(end);
        let rest = shown.skip(end + 1);
        if !text::begins(line, "  "@) {
            match text::before_suffix(line, ":"@) {
                Some(next) => read_groups(rest, Some(next)),
                None => None,
            }
        } else {
            match path {
                Some(under) => match (read_record(line, under), read_groups(rest, path)) {
                    (Some(record), Some(others)) => Some(seq![record] + others),
                    _ => None,
                },
                None => None,
            }
        }
    }
}

/// The search and the records that a projection shows.
pub open spec fn read_back(shown: Seq<char>) -> Option<(Seq<char>, Seq<RawRecordModel>)> {
    match text::after_prefix(shown, "query "@) {
        Some(rest) => {
            let end = line_end(rest, 0);
            if end >= rest.len() {
                None
            } else {
                match read_groups(rest.skip(end + 1), None) {
                    Some(found) => Some((rest.take(end), found)),
                    None => None,
                }
            }
        },
        None => None,
    }
}

/// A record that stands on a line of its own, under a path that cannot be taken for a record.
pub open spec fn on_its_line(record: RawRecordModel) -> bool {
    &&& !record.display_path.contains('\n')
    &&& !text::begins(record.display_path, "  "@)
    &&& !vstd::utf8::decode_utf8(record.bytes).contains('\n')
}

proof fn line_ends_at(s: Seq<char>, i: int, n: int)
    requires
        0 <= i <= n < s.len(),
        s[n] == '\n',
        forall|k: int| i <= k < n ==> s[k] != '\n',
    ensures
        line_end(s, i) == n,
    decreases n - i,
{
    if i < n {
        line_ends_at(s, i + 1, n);
    }
}

proof fn digits_end_at(s: Seq<char>, i: int, n: int)
    requires
        0 <= i <= n < s.len(),
        !text::ascii_digit(s[n]),
        forall|k: int| i <= k < n ==> text::ascii_digit(#[trigger] s[k]),
    ensures
        digits_end(s, i) == n,
    decreases n - i,
{
    if i < n {
        assert(text::ascii_digit(s[i]));
        digits_end_at(s, i + 1, n);
    }
}

proof fn decimals_are_read(n: nat)
    ensures
        value_of(text::decimal(n)) == n,
        forall|k: int|
            0 <= k < text::decimal(n).len() ==> text::ascii_digit(#[trigger] text::decimal(n)[k]),
    decreases n,
{
    let digits = text::decimal(n);
    if n < 10 {
        assert(digits.drop_last() =~= seq![]);
        assert(value_of(digits.drop_last()) == 0);
    } else {
        decimals_are_read(n / 10);
        let front = text::decimal(n / 10);
        assert(digits.drop_last() =~= front);
        assert forall|k: int| 0 <= k < digits.len() implies text::ascii_digit(
            #[trigger] digits[k],
        ) by {
            if k < front.len() {
                assert(digits[k] == front[k]);
            }
        }
    }
}

proof fn record_is_read(record: RawRecordModel, rest: Seq<char>)
    requires
        vstd::utf8::valid_utf8(record.bytes),
        on_its_line(record),
    ensures
        read_groups(records::shown_record(record) + rest, Some(record.display_path)) == (
        match read_groups(rest, Some(record.display_path)) {
            Some(others) => Some(seq![record] + others),
            None => None,
        }),
{
    reveal_strlit("  ");
    let spaces = "  "@;
    let digits = text::decimal(record.line as nat);
    let source = vstd::utf8::decode_utf8(record.bytes);
    let mark = if record.kind == RecordKind::Match {
        ':'
    } else {
        '-'
    };
    let line = spaces + digits + seq![mark] + source;
    let shown = records::shown_record(record) + rest;
    decimals_are_read(record.line as nat);
    vstd::utf8::decode_utf8_encode_utf8(record.bytes);
    assert(records::shown_record(record) =~= line + seq!['\n']);
    assert forall|k: int| 0 <= k < line.len() implies line[k] != '\n' by {
        if 2 <= k < 2 + digits.len() {
            assert(line[k] == digits[k - 2]);
        } else if k > 2 + digits.len() {
            assert(line[k] == source[k - 3 - digits.len()]);
        }
    }
    let end = line.len() as int;
    assert forall|k: int| 0 <= k < end implies shown[k] != '\n' by {
        assert(shown[k] == line[k]);
    }
    line_ends_at(shown, 0, end);
    assert(shown.take(end) =~= line);
    assert(shown.skip(end + 1) =~= rest);
    assert(line.subrange(0, 2) =~= spaces);
    let stop = 2 + digits.len() as int;
    assert(line[stop] == mark);
    assert forall|k: int| 2 <= k < stop implies text::ascii_digit(#[trigger] line[k]) by {
        assert(line[k] == digits[k - 2]);
    }
    digits_end_at(line, 2, stop);
    assert(line.subrange(2, stop) =~= digits);
    assert(line.skip(stop + 1) =~= source);
    assert(read_record(line, record.display_path) == Some(record));
}

proof fn group_is_read(group: Seq<RawRecordModel>, path: Seq<char>, i: int, rest: Seq<char>)
    requires
        0 <= i <= group.len(),
        forall|k: int|
            0 <= k < group.len() ==> (#[trigger] group[k]).display_path == path
                && vstd::utf8::valid_utf8(group[k].bytes) && on_its_line(group[k]),
    ensures
        read_groups(records::shown_records(group, i) + rest, Some(path)) == (match read_groups(
            rest,
            Some(path),
        ) {
            Some(others) => Some(group.skip(i) + others),
            None => None,
        }),
    decreases group.len() - i,
{
    if i < group.len() {
        let later = records::shown_records(group, i + 1) + rest;
        group_is_read(group, path, i + 1, rest);
        record_is_read(group[i], later);
        assert(records::shown_records(group, i) + rest =~= records::shown_record(group[i])
            + later);
        if let Some(others) = read_groups(rest, Some(path)) {
            assert(seq![group[i]] + (group.skip(i + 1) + others) =~= group.skip(i) + others);
        }
    } else {
        assert(records::shown_records(group, i) + rest =~= rest);
        if let Some(others) = read_groups(rest, Some(path)) {
            assert(group.skip(i) + others =~= others);
        }
    }
}

proof fn path_is_read(path: Seq<char>, rest: Seq<char>, above: Option<Seq<char>>)
    requires
        !path.contains('\n'),
        !text::begins(path, "  "@),
    ensures
        read_groups(path + ":\n"@ + rest, above) == read_groups(rest, Some(path)),
{
    reveal_strlit("  ");
    reveal_strlit(":");
    reveal_strlit(":\n");
    let line = path + seq![':'];
    let shown = path + ":\n"@ + rest;
    let end = line.len() as int;
    assert(shown =~= line + seq!['\n'] + rest);
    assert forall|k: int| 0 <= k < end implies shown[k] != '\n' by {
        if k < path.len() {
            assert(shown[k] == path[k]);
        }
    }
    line_ends_at(shown, 0, end);
    assert(shown.take(end) =~= line);
    assert(shown.skip(end + 1) =~= rest);
    if text::begins(line, "  "@) {
        assert(line.subrange(0, 2)[0] == line[0]);
        assert(line.subrange(0, 2)[1] == line[1]);
        assert(path.subrange(0, 2) =~= "  "@);
        assert(false);
    }
    assert(line.subrange(line.len() - 1, line.len() as int) =~= ":"@);
    assert(line.subrange(0, line.len() - 1) =~= path);
}

proof fn group_is_of_its_path(found: Seq<RawRecordModel>, path: Seq<char>, i: int, k: int)
    requires
        0 <= i,
        0 <= k < records::group_from(found, path, i).len(),
    ensures
        records::group_from(found, path, i)[k].display_path == path,
        found.contains(records::group_from(found, path, i)[k]),
    decreases found.len() - i,
{
    if i < found.len() {
        if found[i].display_path == path {
            if k > 0 {
                group_is_of_its_path(found, path, i + 1, k - 1);
            } else {
                assert(found.contains(found[i]));
            }
        } else {
            group_is_of_its_path(found, path, i + 1, k);
        }
    }
}

proof fn paths_are_of_records(
    found: Seq<RawRecordModel>,
    i: int,
    paths: Seq<Seq<char>>,
    x: Seq<char>,
)
    requires
        0 <= i,
        sorted::increasing(paths),
        records::paths_from(found, i, paths).contains(x),
    ensures
        paths.contains(x) || exists|k: int|
            i <= k < found.len() && (#[trigger] found[k]).display_path == x,
    decreases found.len() - i,
{
    if i < found.len() {
        let next = sorted::inserted(paths, found[i].display_path);
        sorted::insertion_keeps_order(paths, found[i].display_path);
        paths_are_of_records(found, i + 1, next, x);
        if next.contains(x) && !paths.contains(x) {
            assert(found[i].display_path == x);
        }
    }
}

proof fn groups_are_read(
    found: Seq<RawRecordModel>,
    paths: Seq<Seq<char>>,
    i: int,
    above: Option<Seq<char>>,
)
    requires
        0 <= i <= paths.len(),
        forall|k: int|
            0 <= k < found.len() ==> vstd::utf8::valid_utf8((#[trigger] found[k]).bytes)
                && on_its_line(found[k]),
        forall|k: int|
            0 <= k < paths.len() ==> !(#[trigger] paths[k]).contains('\n') && !text::begins(
                paths[k],
                "  "@,
            ),
    ensures
        read_groups(records::shown_groups(found, paths, i), above) == Some(
            records::kept_from(found, paths, i),
        ),
    decreases paths.len() - i,
{
    if i < paths.len() {
        let path = paths[i];
        let group = records::group_from(found, path, 0);
        let rest = records::shown_groups(found, paths, i + 1);
        assert forall|k: int| 0 <= k < group.len() implies (#[trigger] group[k]).display_path
            == path && vstd::utf8::valid_utf8(group[k].bytes) && on_its_line(group[k]) by {
            group_is_of_its_path(found, path, 0, k);
            let j = found.index_of(group[k]);
            assert(found[j] == group[k]);
        }
        groups_are_read(found, paths, i + 1, Some(path));
        group_is_read(group, path, 0, rest);
        path_is_read(path, records::shown_records(group, 0) + rest, above);
        assert(records::shown_groups(found, paths, i) =~= path + ":\n"@ + (records::shown_records(
            group,
            0,
        ) + rest));
        assert(group.skip(0) =~= group);
    }
}

proof fn showable(found: Seq<RawRecordModel>, i: int, k: int)
    requires
        0 <= i <= k < found.len(),
        !records::unshowable_from(found, i),
    ensures
        vstd::utf8::valid_utf8(found[k].bytes),
    decreases k - i,
{
    if i < k {
        showable(found, i + 1, k);
    }
}

/// A projection is lossless: the search can be read back from its text, and so can every
/// record that it shows, with its path, its number, its kind and its bytes, in the order in
/// which they came under each path.
pub proof fn projections_can_be_read_back(query: Seq<char>, found: Seq<RawRecordModel>)
    requires
        search::identifier(query),
        !records::unshowable_from(found, 0),
        forall|k: int| 0 <= k < found.len() ==> on_its_line(#[trigger] found[k]),
    ensures
        read_back(records::projected(query, found)) == Some(
            (query, records::kept_from(found, records::paths_of(found), 0)),
        ),
{
    reveal_strlit("query ");
    let paths = records::paths_of(found);
    let shown = records::projected(query, found);
    let groups = records::shown_groups(found, paths, 0);
    let rest = query + seq!['\n'] + groups;
    assert forall|k: int| 0 <= k < found.len() implies vstd::utf8::valid_utf8(
        (#[trigger] found[k]).bytes,
    ) && on_its_line(found[k]) by {
        showable(found, 0, k);
    }
    assert forall|k: int| 0 <= k < paths.len() implies !(#[trigger] paths[k]).contains('\n')
        && !text::begins(paths[k], "  "@) by {
        assert(paths.contains(paths[k]));
        paths_are_of_records(found, 0, seq![], paths[k]);
    }
    groups_are_read(found, paths, 0, None);
    assert(shown =~= "query "@ + rest);
    assert(shown.subrange(0, 6) =~= "query "@);
    assert(shown.subrange(6, shown.len() as int) =~= rest);
    let end = query.len() as int;
    assert forall|k: int| 0 <= k < end implies rest[k] != '\n' by {
        assert(rest[k] == query[k]);
        if k > 0 {
            assert(search::identifier_char(query[k]));
        }
    }
    line_ends_at(rest, 0, end);
    assert(rest.take(end) =~= query);
    assert(rest.skip(end + 1) =~= groups);
}

proof fn feeds_are_encoded(s: Seq<char>, k: int)
    requires
        0 <= k < s.len(),
        s[k] == '\n',
    ensures
        vstd::utf8::encode_utf8(s).contains(10u8),
    decreases k,
{
    let first = vstd::utf8::encode_scalar(s[0] as u32);
    let rest = vstd::utf8::encode_utf8(s.drop_first());
    let all = vstd::utf8::encode_utf8(s);
    assert(all == first + rest);
    if k == 0 {
        assert((10u32 & 0x7F) as u8 == 10u8) by (bit_vector);
        assert(all[0] == 10u8);
    } else {
        feeds_are_encoded(s.drop_first(), k - 1);
        let j = rest.index_of(10u8);
        assert(all[first.len() + j] == 10u8);
    }
}

proof fn no_feed_is_decoded(raw: Seq<u8>)
    requires
        vstd::utf8::valid_utf8(raw),
        !raw.contains(10u8),
    ensures
        !vstd::utf8::decode_utf8(raw).contains('\n'),
{
    let s = vstd::utf8::decode_utf8(raw);
    vstd::utf8::decode_utf8_encode_utf8(raw);
    if s.contains('\n') {
        feeds_are_encoded(s, s.index_of('\n'));
    }
}

proof fn lookups_hold_no_feed(path: Seq<char>)
    requires
        !path.contains('\n'),
    ensures
        records::lookup_path(path) matches Some(shown) ==> !shown.contains('\n'),
{
    let slashes = text::slashed(path);
    if let Some(shown) = records::lookup_path(path) {
        if shown.contains('\n') {
            let k = shown.index_of('\n');
            let j = k + slashes.len() - shown.len();
            assert(slashes[j] == '\n');
            assert(path[j] == '\n');
        }
    }
}

/// A record that stands on one line.
pub open spec fn on_one_line(record: RawRecordModel) -> bool {
    !record.display_path.contains('\n') && !record.bytes.contains(10u8)
}

proof fn readings_stand_on_one_line(raw: Seq<u8>, present: Seq<Seq<char>>, i: int, k: int)
    requires
        0 <= i,
        !raw.contains(10u8),
        records::readings_from(raw, present, i) is Some,
        0 <= k < records::readings_from(raw, present, i)->0.len(),
    ensures
        on_one_line(records::readings_from(raw, present, i)->0[k]),
    decreases raw.len() - i,
{
    if i < raw.len() {
        let all = records::readings_from(raw, present, i)->0;
        let rest = records::readings_from(raw, present, i + 1)->0;
        if all == rest {
            readings_stand_on_one_line(raw, present, i + 1, k);
        } else if k > 0 {
            assert(all[k] == rest[k - 1]);
            readings_stand_on_one_line(raw, present, i + 1, k - 1);
        } else {
            let path = raw.subrange(0, i);
            let bytes = raw.subrange(records::digits_end(raw, i + 1) + 1, raw.len() as int);
            if path.contains(10u8) {
                assert(raw[path.index_of(10u8)] == 10u8);
            }
            if bytes.contains(10u8) {
                let j = bytes.index_of(10u8);
                assert(raw[records::digits_end(raw, i + 1) + 1 + j] == 10u8);
            }
            no_feed_is_decoded(path);
            lookups_hold_no_feed(vstd::utf8::decode_utf8(path));
            assert(all[0].bytes == bytes);
        }
    }
}

proof fn lines_hold_no_feed(raw: Seq<u8>, start: int, i: int, k: int)
    requires
        0 <= start <= i <= raw.len(),
        forall|j: int| start <= j < i ==> raw[j] != 10u8,
        0 <= k < records::raw_lines_from(raw, start, i).len(),
    ensures
        !records::raw_lines_from(raw, start, i)[k].contains(10u8),
    decreases raw.len() - i,
{
    let line = records::raw_lines_from(raw, start, i)[k];
    if i >= raw.len() {
        if line.contains(10u8) {
            assert(raw[start + line.index_of(10u8)] == 10u8);
        }
    } else if raw[i] == 10 {
        if k == 0 {
            if line.contains(10u8) {
                assert(raw[start + line.index_of(10u8)] == 10u8);
            }
        } else {
            lines_hold_no_feed(raw, i + 1, i + 1, k - 1);
        }
    } else {
        lines_hold_no_feed(raw, start, i + 1, k);
    }
}

proof fn records_stand_on_one_line(
    lines: Seq<Seq<u8>>,
    present: Seq<Seq<char>>,
    i: int,
    found: Seq<RawRecordModel>,
)
    requires
        0 <= i,
        forall|k: int| 0 <= k < lines.len() ==> !(#[trigger] lines[k]).contains(10u8),
        forall|k: int| 0 <= k < found.len() ==> on_one_line(#[trigger] found[k]),
    ensures
        records::records_from(lines, present, i, found) matches Some(all) ==> forall|k: int|
            0 <= k < all.len() ==> on_one_line(#[trigger] all[k]),
    decreases lines.len() - i,
{
    if i < lines.len() {
        if records::is_separator(lines[i]) {
            records_stand_on_one_line(lines, present, i + 1, found);
        } else if let Some(record) = records::record_of(lines[i], present) {
            readings_stand_on_one_line(lines[i], present, 0, 0);
            let next = found.push(record);
            assert forall|k: int| 0 <= k < next.len() implies on_one_line(#[trigger] next[k]) by {
                if k < found.len() {
                    assert(next[k] == found[k]);
                }
            }
            records_stand_on_one_line(lines, present, i + 1, next);
        }
    }
}

proof fn searches_give_lines(raw: Seq<u8>, present: Seq<Seq<char>>)
    ensures
        records::records_of(raw, present) matches Some(found) ==> forall|k: int|
            0 <= k < found.len() ==> on_one_line(#[trigger] found[k]),
{
    let lines = records::raw_lines_from(raw, 0, 0);
    assert forall|k: int| 0 <= k < lines.len() implies !(#[trigger] lines[k]).contains(10u8) by {
        lines_hold_no_feed(raw, 0, 0, k);
    }
    records_stand_on_one_line(lines, present, 0, seq![]);
}

/// What a request is answered with is lossless: where it is a projection, the search that was
/// asked for and every record that it gave can be read back from the text. Paths that begin
/// with two spaces are left out, as they can be taken for records.
pub proof fn answers_can_be_read_back(
    token: Seq<char>,
    now: Option<u64>,
    request: Option<ConsumedRequestModel>,
    frame_is_current: Option<bool>,
    git_head: GitHeadModel,
    capture: Option<CaptureModel>,
    present: Seq<Seq<char>>,
)
    requires
        capture matches Some(run) ==> (records::records_of(run.stdout, present) matches Some(found)
            ==> forall|k: int|
            0 <= k < found.len() ==> !text::begins((#[trigger] found[k]).display_path, "  "@)),
    ensures
        gateway::executed(
            token,
            now,
            request,
            frame_is_current,
            git_head,
            capture,
            present,
        ) matches OutcomeModel::Projection { text: shown, .. } ==> {
            request matches Some(ConsumedRequestModel::Request(asked)) && capture matches Some(run)
                && records::records_of(run.stdout, present) matches Some(found) && read_back(shown)
                == Some((asked.identifier, records::kept_from(found, records::paths_of(found), 0)))
        },
{
    let outcome = gateway::executed(
        token,
        now,
        request,
        frame_is_current,
        git_head,
        capture,
        present,
    );
    if let OutcomeModel::Projection { text: shown, .. } = outcome {
        gateway::projections_are_smaller(
            token,
            now,
            request,
            frame_is_current,
            git_head,
            capture,
            present,
        );
        let stdout = capture->0.stdout;
        let found = records::records_of(stdout, present)->0;
        searches_give_lines(stdout, present);
        assert(!records::unshowable_from(found, 0));
        assert forall|k: int| 0 <= k < found.len() implies on_its_line(#[trigger] found[k]) by {
            showable(found, 0, k);
            no_feed_is_decoded(found[k].bytes);
        }
        projections_can_be_read_back(request->0->Request_0.identifier, found);
    }
}

} // verus!
