//! What the records of a search promise of the lines that they were read from.

use vstd::prelude::*;
use crate::causal_context::records::{
    digits_end, lookup_path, nameless_from, numbered_at, raw_lines_from, readings_from, record_of,
    records_from, records_of, RawRecordModel, RecordKind,
};
use crate::text;

verus! {

broadcast use vstd::string::group_string_axioms;

/// A group of digits between two colons or between two hyphens.
pub open spec fn group_at(raw: Seq<u8>, i: int, j: int) -> bool {
    &&& 0 <= i
    &&& i + 1 < j < raw.len()
    &&& raw[i] == 58 || raw[i] == 45
    &&& raw[j] == raw[i]
    &&& forall|k: int| i < k < j ==> 48 <= #[trigger] raw[k] <= 57
}

/// A path as a search gives it: parts with names, and nothing that leads elsewhere.
pub open spec fn plain_path(path: Seq<char>) -> bool {
    let parts = text::pieces(path, '/');
    &&& !path.contains('\0')
    &&& !path.contains('\\')
    &&& forall|k: int| #![trigger parts[k]]
        0 <= k < parts.len() ==> parts[k].len() > 0 && parts[k] != "."@ && parts[k] != ".."@
}

proof fn all_are_named(parts: Seq<Seq<char>>, i: int)
    requires
        0 <= i,
    ensures
        nameless_from(parts, i) <==> exists|k: int| #![trigger parts[k]]
            i <= k < parts.len() && (parts[k].len() == 0 || parts[k] == "."@ || parts[k] == ".."@),
    decreases parts.len() - i,
{
    if i < parts.len() {
        all_are_named(parts, i + 1);
        if exists|k: int| #![trigger parts[k]]
            i <= k < parts.len() && (parts[k].len() == 0 || parts[k] == "."@ || parts[k] == ".."@) {
            let k = choose|k: int| #![trigger parts[k]]
                i <= k < parts.len() && (parts[k].len() == 0 || parts[k] == "."@ || parts[k]
                    == ".."@);
            if k > i {
                assert(i + 1 <= k);
            }
        }
    }
}

/// A plain path is looked up as it is, also where it is given as one below the directory that
/// one is in; a path that leads up, or to the root, is never looked up.
pub proof fn plain_paths_are_looked_up(path: Seq<char>)
    ensures
        plain_path(path) ==> lookup_path(path) == Some(path),
        plain_path(path) ==> lookup_path("./"@ + path) == Some(path),
        lookup_path("/"@ + path) is None,
        lookup_path("../"@ + path) is None,
{
    reveal_strlit("./");
    reveal_strlit("/");
    reveal_strlit("../");
    reveal_strlit(".");
    reveal_strlit("..");
    let parts = text::pieces(path, '/');
    all_are_named(parts, 0);
    text::laws::pieces_can_be_joined(path, '/');
    if plain_path(path) {
        assert(parts[0].len() > 0);
        if path.len() == 0 {
            text::laws::pieces_of_two(path, path, '/');
            assert(!path.contains('/'));
        }
        assert forall|k: int| 0 <= k < path.len() implies path[k] != '\\' by {
            assert(path.contains(path[k]));
        }
        assert(text::slashed(path) =~= path);
        if text::begins(path, "./"@) {
            let rest = path.subrange(2, path.len() as int);
            assert(path.subrange(0, 2) =~= "./"@);
            assert(path[0] == "./"@[0] && path[1] == "./"@[1]);
            assert(path =~= seq!['.'] + seq!['/'] + rest);
            text::laws::pieces_of_two(seq!['.'], rest, '/');
            assert(parts[0] =~= "."@);
        }
        if text::begins(path, "/"@) {
            let rest = path.subrange(1, path.len() as int);
            assert(path.subrange(0, 1) =~= "/"@);
            assert(path[0] == "/"@[0]);
            assert(path =~= seq![] + seq!['/'] + rest);
            text::laws::pieces_of_two(seq![], rest, '/');
            assert(parts[0].len() == 0);
        }
        let longer = "./"@ + path;
        assert(text::slashed(longer) =~= longer);
        assert(longer.subrange(0, 2) =~= "./"@);
        assert(longer.subrange(2, longer.len() as int) =~= path);
        assert(!longer.contains('\0')) by {
            if longer.contains('\0') {
                let k = longer.index_of('\0');
                if k >= 2 {
                    assert(path[k - 2] == '\0');
                    assert(path.contains('\0'));
                }
            }
        }
    }
    let rooted = "/"@ + path;
    let shown = text::slashed(rooted);
    assert(shown[0] == '/');
    if text::begins(shown, "./"@) {
        assert(shown.subrange(0, 2)[0] == shown[0]);
    }
    assert(shown.subrange(0, 1) =~= "/"@);
    let up = "../"@ + path;
    let seen = text::slashed(up);
    assert(seen[0] == '.' && seen[1] == '.' && seen[2] == '/');
    if text::begins(seen, "./"@) {
        assert(seen.subrange(0, 2)[1] == seen[1]);
    }
    let rest = seen.subrange(3, seen.len() as int);
    assert(seen =~= seq!['.', '.'] + seq!['/'] + rest);
    text::laws::pieces_of_two(seq!['.', '.'], rest, '/');
    assert(!seq!['.', '.'].contains('/'));
    all_are_named(text::pieces(seen, '/'), 0);
    assert(text::pieces(seen, '/')[0] =~= ".."@);
}

proof fn digits_end_behind(raw: Seq<u8>, i: int)
    requires
        0 <= i <= raw.len(),
    ensures
        i <= digits_end(raw, i) <= raw.len(),
        forall|k: int| i <= k < digits_end(raw, i) ==> 48 <= #[trigger] raw[k] <= 57,
        digits_end(raw, i) < raw.len() ==> !(48 <= raw[digits_end(raw, i)] <= 57),
    decreases raw.len() - i,
{
    if i < raw.len() && 48 <= raw[i] <= 57 {
        digits_end_behind(raw, i + 1);
    }
}

proof fn groups_are_numbered(raw: Seq<u8>, i: int)
    requires
        0 <= i < raw.len(),
    ensures
        numbered_at(raw, i) <==> group_at(raw, i, digits_end(raw, i + 1)),
        forall|j: int| #[trigger] group_at(raw, i, j) ==> j == digits_end(raw, i + 1),
{
    digits_end_behind(raw, i + 1);
    let end = digits_end(raw, i + 1);
    assert forall|j: int| #[trigger] group_at(raw, i, j) implies j == end by {
        if end < j {
            assert(48 <= raw[end] <= 57);
        }
        if j < end {
            assert(48 <= raw[j] <= 57);
        }
    }
}

proof fn nothing_is_read(raw: Seq<u8>, present: Seq<Seq<char>>, i: int)
    requires
        0 <= i <= raw.len(),
        forall|a: int, b: int| #[trigger] group_at(raw, a, b) ==> a < i,
    ensures
        readings_from(raw, present, i) == Some(Seq::<RawRecordModel>::empty()),
    decreases raw.len() - i,
{
    if i < raw.len() {
        groups_are_numbered(raw, i);
        nothing_is_read(raw, present, i + 1);
    }
}

proof fn reading_waits(raw: Seq<u8>, present: Seq<Seq<char>>, i: int, n: int)
    requires
        0 <= i <= n <= raw.len(),
        forall|a: int, b: int| #[trigger] group_at(raw, a, b) ==> a >= n,
    ensures
        readings_from(raw, present, i) == readings_from(raw, present, n),
    decreases n - i,
{
    if i < n {
        groups_are_numbered(raw, i);
        reading_waits(raw, present, i + 1, n);
    }
}

/// A line as a search writes it: the path, the number of the line and its bytes, with colons
/// for a match and hyphens for a line around one.
pub open spec fn written_line(record: RawRecordModel) -> Seq<u8> {
    let mark = if record.kind == RecordKind::Match {
        58u8
    } else {
        45u8
    };
    vstd::utf8::encode_utf8(record.display_path).push(mark) + vstd::utf8::encode_utf8(
        text::decimal(record.line as nat),
    ).push(mark) + record.bytes
}

/// A line that holds one group of digits only, behind a path that is there, is read as the
/// record that it was written from: the path, the number and the bytes as they stand, as a match
/// where the group is between colons and as a line around one where it is between hyphens.
pub proof fn written_lines_are_read(record: RawRecordModel, present: Seq<Seq<char>>)
    requires
        record.line >= 1,
        plain_path(record.display_path),
        present.contains(record.display_path),
        forall|a: int, b: int| #[trigger]
            group_at(written_line(record), a, b) ==> a == vstd::utf8::encode_utf8(
                record.display_path,
            ).len(),
    ensures
        record_of(written_line(record), present) == Some(record),
{
    let path = record.display_path;
    let number = text::decimal(record.line as nat);
    let front = vstd::utf8::encode_utf8(path);
    let digits = vstd::utf8::encode_utf8(number);
    let raw = written_line(record);
    let n = front.len() as int;
    let mark = raw[n];
    plain_paths_are_looked_up(path);
    text::laws::written_numbers_are_read(record.line as nat);
    ascii_is_kept(number);
    vstd::utf8::encode_utf8_valid_utf8(path);
    vstd::utf8::encode_utf8_decode_utf8(path);
    vstd::utf8::encode_utf8_valid_utf8(number);
    vstd::utf8::encode_utf8_decode_utf8(number);
    let end = n + 1 + digits.len();
    assert(raw[end] == mark);
    assert forall|k: int| n < k < end implies 48 <= #[trigger] raw[k] <= 57 by {
        assert(raw[k] == digits[k - n - 1]);
        assert(text::ascii_digit(number[k - n - 1]));
    }
    assert(group_at(raw, n, end));
    groups_are_numbered(raw, n);
    reading_waits(raw, present, 0, n);
    nothing_is_read(raw, present, n + 1);
    assert(raw.subrange(0, n) =~= front);
    assert(raw.subrange(n + 1, end) =~= digits);
    assert(raw.subrange(end + 1, raw.len() as int) =~= record.bytes);
    let rest = readings_from(raw, present, n + 1)->0;
    assert(readings_from(raw, present, n) == Some(seq![record] + rest));
    assert(seq![record] + rest =~= seq![record]);
}

proof fn ascii_is_kept(digits: Seq<char>)
    requires
        forall|k: int| 0 <= k < digits.len() ==> text::ascii_digit(#[trigger] digits[k]),
    ensures
        vstd::utf8::encode_utf8(digits).len() == digits.len(),
        forall|k: int|
            0 <= k < digits.len() ==> #[trigger] vstd::utf8::encode_utf8(digits)[k]
                == digits[k] as u8,
{
    assert(vstd::utf8::is_ascii_chars(digits)) by {
        assert forall|k: int| 0 <= k < digits.len() implies 0 <= #[trigger] digits[k] as nat && (
        digits[k] as nat) < 128 by {
            assert(text::ascii_digit(digits[k]));
        }
    }
    vstd::utf8::is_ascii_chars_encode_utf8(digits);
}

/// Lines, each with a line feed behind it.
pub open spec fn fed(lines: Seq<Seq<u8>>, i: int) -> Seq<u8>
    decreases lines.len() - i,
{
    if i < 0 || i >= lines.len() {
        seq![]
    } else {
        lines[i].push(10) + fed(lines, i + 1)
    }
}

proof fn one_raw_line(raw: Seq<u8>, start: int, i: int, n: int)
    requires
        0 <= start <= i <= n < raw.len(),
        raw[n] == 10,
        forall|k: int| i <= k < n ==> #[trigger] raw[k] != 10,
    ensures
        raw_lines_from(raw, start, i) == seq![raw.subrange(start, n)] + raw_lines_from(
            raw,
            n + 1,
            n + 1,
        ),
    decreases n - i,
{
    if i < n {
        one_raw_line(raw, start, i + 1, n);
    }
}

proof fn fed_lines_are_read(raw: Seq<u8>, p: int, lines: Seq<Seq<u8>>, i: int)
    requires
        0 <= i <= lines.len(),
        0 <= p <= raw.len(),
        raw.skip(p) == fed(lines, i),
        forall|k: int| 0 <= k < lines.len() ==> !(#[trigger] lines[k]).contains(10u8),
    ensures
        raw_lines_from(raw, p, p) == lines.skip(i),
    decreases lines.len() - i,
{
    let rest = raw.skip(p);
    if i < lines.len() {
        let line = lines[i];
        let n = p + line.len();
        assert forall|k: int| 0 <= k < rest.len() implies #[trigger] rest[k] == raw[p + k] by {}
        assert(rest[line.len() as int] == 10);
        assert(raw[n] == 10) by {
            assert(raw[p + line.len()] == rest[line.len() as int]);
        }
        assert forall|k: int| p <= k < n implies #[trigger] raw[k] != 10 by {
            assert(rest[k - p] == line[k - p]);
            assert(line.contains(line[k - p]));
        }
        one_raw_line(raw, p, p, n);
        assert(raw.subrange(p, n) =~= line) by {
            assert(rest.subrange(0, line.len() as int) =~= line);
        }
        assert(raw.skip(n + 1) =~= fed(lines, i + 1)) by {
            assert(rest.skip(line.len() as int + 1) =~= fed(lines, i + 1));
        }
        fed_lines_are_read(raw, n + 1, lines, i + 1);
        assert(lines.skip(i) =~= seq![line] + lines.skip(i + 1));
    } else {
        assert(rest.len() == 0);
        assert(lines.skip(i) =~= seq![]);
    }
}

/// A line that only stands between two groups of lines.
pub open spec fn parts_groups(line: Seq<u8>) -> bool {
    line.len() == 2 && line[0] == 45 && line[1] == 45
}

/// The records of the lines that are no separators.
pub open spec fn records_in(lines: Seq<Seq<u8>>, present: Seq<Seq<char>>) -> Seq<RawRecordModel> {
    lines.filter(|line: Seq<u8>| !parts_groups(line)).map_values(
        |line: Seq<u8>| record_of(line, present)->0,
    )
}

proof fn one_more_record(lines: Seq<Seq<u8>>, present: Seq<Seq<char>>, i: int)
    requires
        0 <= i < lines.len(),
    ensures
        records_in(lines.take(i + 1), present) == if parts_groups(lines[i]) {
            records_in(lines.take(i), present)
        } else {
            records_in(lines.take(i), present).push(record_of(lines[i], present)->0)
        },
        records_in(lines.take(i), present).len() <= i,
    decreases i,
{
    let keep = |line: Seq<u8>| !parts_groups(line);
    reveal(Seq::filter);
    assert(lines.take(i + 1).drop_last() =~= lines.take(i));
    let before = records_in(lines.take(i), present);
    let after = records_in(lines.take(i + 1), present);
    if parts_groups(lines[i]) {
        assert(after =~= before);
    } else {
        assert(after =~= before.push(record_of(lines[i], present)->0));
    }
    if i > 0 {
        one_more_record(lines, present, i - 1);
    }
}

proof fn records_are_read_from(lines: Seq<Seq<u8>>, present: Seq<Seq<char>>, i: int)
    requires
        0 <= i <= lines.len() <= 4096,
    ensures
        match records_from(lines, present, i, records_in(lines.take(i), present)) {
            Some(all) => all == records_in(lines, present) && forall|k: int|
                i <= k < lines.len() ==> parts_groups(#[trigger] lines[k]) || record_of(
                    lines[k],
                    present,
                ) is Some,
            None => exists|k: int|
                i <= k < lines.len() && !parts_groups(#[trigger] lines[k]) && (lines[k].len() == 0
                    || record_of(lines[k], present) is None),
        },
    decreases lines.len() - i,
{
    if i < lines.len() {
        one_more_record(lines, present, i);
        assert(parts_groups(lines[i]) <==> lines[i] =~= seq![45u8, 45u8]);
        if parts_groups(lines[i]) {
            records_are_read_from(lines, present, i + 1);
        } else if lines[i].len() > 0 && record_of(lines[i], present) is Some {
            records_are_read_from(lines, present, i + 1);
        }
    } else {
        assert(lines.take(i) =~= lines);
    }
}

/// What a search gives is read line by line: every line but a separator is one record, in their
/// order, and where one of them cannot be read, or there is none, nothing is.
pub proof fn searches_are_read(lines: Seq<Seq<u8>>, present: Seq<Seq<char>>)
    requires
        lines.len() <= 4096,
        forall|k: int| 0 <= k < lines.len() ==> !(#[trigger] lines[k]).contains(10u8),
    ensures
        (exists|k: int|
            0 <= k < lines.len() && !parts_groups(#[trigger] lines[k]) && (lines[k].len() == 0
                || record_of(lines[k], present) is None)) ==> records_of(fed(lines, 0), present)
            is None,
        (forall|k: int|
            0 <= k < lines.len() ==> parts_groups(#[trigger] lines[k]) || (lines[k].len() > 0
                && record_of(lines[k], present) is Some)) && records_in(lines, present).len() > 0
            ==> records_of(fed(lines, 0), present) == Some(records_in(lines, present)),
        records_in(lines, present).len() == 0 ==> records_of(fed(lines, 0), present) is None,
{
    let raw = fed(lines, 0);
    assert(raw.skip(0) =~= raw);
    fed_lines_are_read(raw, 0, lines, 0);
    assert(lines.skip(0) =~= lines);
    assert(records_in(lines.take(0), present) =~= seq![]) by {
        reveal(Seq::filter);
    }
    records_are_read_from(lines, present, 0);
    if exists|k: int|
        0 <= k < lines.len() && !parts_groups(#[trigger] lines[k]) && lines[k].len() == 0 {
        let k = choose|k: int|
            0 <= k < lines.len() && !parts_groups(#[trigger] lines[k]) && lines[k].len() == 0;
        assert(readings_from(lines[k], present, 0) == Some(Seq::<RawRecordModel>::empty()));
        assert(record_of(lines[k], present) is None);
    }
}

} // verus!
