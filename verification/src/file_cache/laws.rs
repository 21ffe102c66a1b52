//! What the file cache promises of the files that it has shown.

use vstd::prelude::*;
use crate::digest;
use crate::file_cache::{
    changes_from, covers, key_of, observation_of, observed_for, observed_range, seen, slice_of,
    spans_from, spans_of, stable_reads, unsupported, CacheEntryModel, CacheErrorModel,
    ChangedRange, DiffSpan, ObservationStatus, ObservedRange, RequestedRange, Stamp,
};
use crate::path;
use crate::text;

verus! {

broadcast use vstd::string::group_string_axioms;

/// Lines, each with a line feed behind it.
pub open spec fn fed(lines: Seq<Seq<char>>) -> Seq<char>
    decreases lines.len(),
{
    if lines.len() == 0 {
        seq![]
    } else {
        fed(lines.drop_last()) + lines.last() + seq!['\n']
    }
}

proof fn fed_in_two(lines: Seq<Seq<char>>, a: int, b: int)
    requires
        0 <= a <= b <= lines.len(),
    ensures
        fed(lines.take(b)) == fed(lines.take(a)) + fed(lines.subrange(a, b)),
    decreases b - a,
{
    if a < b {
        fed_in_two(lines, a, b - 1);
        assert(lines.take(b).drop_last() =~= lines.take(b - 1));
        assert(lines.subrange(a, b).drop_last() =~= lines.subrange(a, b - 1));
        assert(fed(lines.take(b)) =~= fed(lines.take(a)) + fed(lines.subrange(a, b)));
    } else {
        assert(lines.subrange(a, b) =~= seq![]);
        assert(fed(lines.take(b)) =~= fed(lines.take(a)) + fed(lines.subrange(a, b)));
    }
}

proof fn one_span(s: Seq<char>, start: int, i: int, n: int)
    requires
        0 <= start <= i <= n < s.len(),
        s[n] == '\n',
        forall|k: int| i <= k < n ==> #[trigger] s[k] != '\n',
    ensures
        spans_from(s, start, i) == seq![(start, n + 1)] + spans_from(s, n + 1, n + 1),
    decreases n - i,
{
    if i < n {
        one_span(s, start, i + 1, n);
    }
}

proof fn spans_are_lines(s: Seq<char>, lines: Seq<Seq<char>>, i: int)
    requires
        s == fed(lines),
        0 <= i <= lines.len(),
        forall|k: int| 0 <= k < lines.len() ==> !(#[trigger] lines[k]).contains('\n'),
    ensures
        ({
            let p = fed(lines.take(i)).len() as int;
            let spans = spans_from(s, p, p);
            &&& spans.len() == lines.len() - i
            &&& forall|k: int| #![trigger spans[k]]
                0 <= k < spans.len() ==> spans[k].0 == fed(lines.take(i + k)).len() && spans[k].1
                    == fed(lines.take(i + k + 1)).len()
        }),
    decreases lines.len() - i,
{
    let p = fed(lines.take(i)).len() as int;
    let spans = spans_from(s, p, p);
    let all = lines.len() as int;
    assert(lines.take(all) =~= lines);
    fed_in_two(lines, i, all);
    if i < lines.len() {
        let line = lines[i];
        fed_in_two(lines, i, i + 1);
        fed_in_two(lines, i + 1, all);
        assert(lines.subrange(i, i + 1) =~= seq![line]);
        assert(lines.subrange(i, i + 1).drop_last() =~= seq![]);
        assert(fed(lines.subrange(i, i + 1)) =~= line + seq!['\n']) by {
            assert(fed(Seq::<Seq<char>>::empty()) =~= seq![]);
            assert(lines.subrange(i, i + 1).last() == line);
        }
        let n = p + line.len();
        let later = fed(lines.subrange(i + 1, all));
        assert(s =~= fed(lines.take(i)) + (line + seq!['\n']) + later);
        assert(s[n] == '\n');
        assert forall|k: int| p <= k < n implies #[trigger] s[k] != '\n' by {
            assert(s[k] == line[k - p]);
            assert(line.contains(line[k - p]));
        }
        one_span(s, p, p, n);
        assert(fed(lines.take(i + 1)).len() == n + 1);
        spans_are_lines(s, lines, i + 1);
        let rest = spans_from(s, n + 1, n + 1);
        assert forall|k: int| #![trigger spans[k]] 0 <= k < spans.len() implies spans[k].0 == fed(
            lines.take(i + k),
        ).len() && spans[k].1 == fed(lines.take(i + k + 1)).len() by {
            if k > 0 {
                assert(spans[k] == rest[k - 1]);
                assert(rest[k - 1].0 == fed(lines.take(i + 1 + (k - 1))).len());
            }
        }
    } else {
        assert(lines.take(i) =~= lines);
        assert(spans.len() == 0);
    }
}

/// A slice of a text is the lines that were asked for, from the first to the last of them or to
/// the end of the text, with their line feeds; all of the text is the text itself.
pub proof fn slices_are_lines(lines: Seq<Seq<char>>, start: u64, end: u64)
    requires
        forall|k: int| 0 <= k < lines.len() ==> !(#[trigger] lines[k]).contains('\n'),
        1 <= start <= end,
    ensures
        slice_of(fed(lines), RequestedRange::Lines { start, end }) == if start > lines.len() {
            Seq::<char>::empty()
        } else {
            fed(
                lines.subrange(
                    start - 1,
                    if end < lines.len() {
                        end as int
                    } else {
                        lines.len() as int
                    },
                ),
            )
        },
        slice_of(fed(lines), RequestedRange::Full) == fed(lines),
{
    let s = fed(lines);
    assert(lines.take(0) =~= seq![]);
    spans_are_lines(s, lines, 0);
    let spans = spans_of(s);
    assert(fed(lines.take(0)).len() == 0);
    if start <= lines.len() {
        let a = start - 1;
        let b = if end < lines.len() {
            end as int
        } else {
            lines.len() as int
        };
        let all = lines.len() as int;
        assert(spans[a].0 == fed(lines.take(0 + a)).len());
        assert(spans[b - 1].1 == fed(lines.take(0 + (b - 1) + 1)).len());
        fed_in_two(lines, a, b);
        fed_in_two(lines, b, all);
        assert(lines.take(all) =~= lines);
        assert(s.subrange(
            fed(lines.take(a)).len() as int,
            fed(lines.take(b)).len() as int,
        ) =~= fed(lines.subrange(a, b)));
    }
}

/// A read of a whole text counts as one of all its lines, and of the first where it has none; a
/// read of some lines as one of these.
pub proof fn reads_count_for_their_lines(lines: Seq<Seq<char>>, start: u64, end: u64)
    requires
        forall|k: int| 0 <= k < lines.len() ==> !(#[trigger] lines[k]).contains('\n'),
        lines.len() <= u64::MAX,
    ensures
        observed_range(fed(lines), RequestedRange::Full) == (ObservedRange {
            start: 1,
            end: if lines.len() > 1 {
                lines.len() as u64
            } else {
                1
            },
        }),
        observed_range(fed(lines), RequestedRange::Lines { start, end }) == (ObservedRange {
            start,
            end,
        }),
{
    assert(lines.take(0) =~= seq![]);
    spans_are_lines(fed(lines), lines, 0);
    assert(fed(lines.take(0)).len() == 0);
}

/// A read is unchanged exactly where the bytes are those kept and one range that was shown takes
/// in all that is asked for; it then shows nothing. Any other read shows what was asked for and
/// keeps the digest of the bytes; it is a change exactly where other bytes were kept.
pub proof fn reads_are_answered(
    canonical: Seq<char>,
    workspace: Seq<char>,
    state_root: Seq<char>,
    raw: Seq<u8>,
    content: Seq<char>,
    bytes: u64,
    modified_nanos: Option<u128>,
    requested: RequestedRange,
    previous: Option<CacheEntryModel>,
    spans: Seq<DiffSpan>,
)
    ensures
        ({
            let answer = observation_of(
                canonical,
                workspace,
                state_root,
                raw,
                content,
                bytes,
                modified_nanos,
                requested,
                previous,
                spans,
            );
            let range = observed_range(content, requested);
            let kept = previous is Some && previous->0.content_hash == digest::sha256_hex(raw);
            let known = kept && exists|k: int|
                0 <= k < previous->0.observed.len() && (#[trigger] previous->0.observed[k]).start
                    <= range.start && range.end <= previous->0.observed[k].end;
            &&& answer.observation.status == ObservationStatus::Unchanged <==> known
            &&& answer.observation.status == ObservationStatus::Changed <==> previous is Some
                && !kept
            &&& answer.observation.requested == requested
            &&& known ==> answer.observation.content is None && answer.entry is None
            &&& !known ==> {
                &&& answer.observation.content == Some(slice_of(content, requested))
                &&& answer.entry is Some
                &&& answer.entry->0.content_hash == digest::sha256_hex(raw)
                &&& answer.entry->0.bytes == bytes
                &&& answer.entry->0.modified_nanos == modified_nanos
            }
            &&& previous is None || kept ==> answer.observation.changed_ranges.len() == 0
            &&& path::below(canonical, workspace) matches Some(below) ==> answer.observation.path
                == text::slashed(below)
        }),
{
    let range = observed_range(content, requested);
    if previous is Some {
        assert forall|k: int| 0 <= k < previous->0.observed.len() implies (covers(
            #[trigger] previous->0.observed[k],
            range,
        ) <==> previous->0.observed[k].start <= range.start && range.end
            <= previous->0.observed[k].end) by {}
    }
}

/// After a read that shows something, the lines that count as seen are those that were asked
/// for, and those seen before where the bytes are the same.
pub proof fn shown_lines_are_seen(
    canonical: Seq<char>,
    workspace: Seq<char>,
    state_root: Seq<char>,
    raw: Seq<u8>,
    content: Seq<char>,
    bytes: u64,
    modified_nanos: Option<u128>,
    start: u64,
    end: u64,
    previous: Option<CacheEntryModel>,
    spans: Seq<DiffSpan>,
    line: int,
)
    requires
        start <= end,
        previous matches Some(previous) ==> forall|k: int|
            0 <= k < previous.observed.len() ==> (#[trigger] previous.observed[k]).start
                <= previous.observed[k].end,
    ensures
        observation_of(
            canonical,
            workspace,
            state_root,
            raw,
            content,
            bytes,
            modified_nanos,
            RequestedRange::Lines { start, end },
            previous,
            spans,
        ).entry matches Some(entry) ==> (seen(entry.observed, line) <==> start <= line <= end || (
        previous is Some && previous->0.content_hash == digest::sha256_hex(raw) && seen(
            previous->0.observed,
            line,
        ))),
{
    let range = ObservedRange { start, end };
    let before = if previous is Some && previous->0.content_hash == digest::sha256_hex(raw) {
        previous->0.observed
    } else {
        seq![]
    };
    crate::file_cache::merging_adds_exactly_the_range(before, range, line);
}

proof fn changes_are_the_others(spans: Seq<DiffSpan>, i: int)
    requires
        0 <= i <= spans.len(),
    ensures
        changes_from(spans, i) == spans.skip(i).filter(|span: DiffSpan| !span.equal).map_values(
            |span: DiffSpan| crate::file_cache::change_of(span),
        ),
    decreases spans.len() - i,
{
    let other = |span: DiffSpan| !span.equal;
    let change = |span: DiffSpan| crate::file_cache::change_of(span);
    if i < spans.len() {
        changes_are_the_others(spans, i + 1);
        let rest = spans.skip(i + 1);
        assert(spans.skip(i) =~= seq![spans[i]] + rest);
        vstd::seq::Seq::filter_distributes_over_add(seq![spans[i]], rest, other);
        assert(seq![spans[i]].filter(other) =~= if spans[i].equal {
            seq![]
        } else {
            seq![spans[i]]
        }) by {
            reveal_with_fuel(Seq::filter, 3);
            assert(seq![spans[i]].drop_last() =~= seq![]);
            assert(Seq::<DiffSpan>::empty().filter(other) =~= seq![]);
        }
        assert(changes_from(spans, i) =~= spans.skip(i).filter(other).map_values(change));
    } else {
        assert(spans.skip(i) =~= seq![]);
        assert(spans.skip(i).filter(other) =~= seq![]) by {
            reveal(Seq::filter);
        }
        assert(changes_from(spans, i) =~= spans.skip(i).filter(other).map_values(change));
    }
}

/// The changed ranges are those of the spans in which the old and the new text differ, in their
/// order, with lines counted from one.
pub proof fn differences_are_changes(spans: Seq<DiffSpan>)
    ensures
        ({
            let others = spans.filter(|span: DiffSpan| !span.equal);
            let changes = changes_from(spans, 0);
            &&& changes.len() == others.len()
            &&& forall|k: int| #![trigger changes[k]]
                0 <= k < changes.len() ==> changes[k] == (ChangedRange {
                    old_start: (others[k].old_start + 1) as u64,
                    old_lines: others[k].old_len as u64,
                    new_start: (others[k].new_start + 1) as u64,
                    new_lines: others[k].new_len as u64,
                })
        }),
{
    changes_are_the_others(spans, 0);
    assert(spans.skip(0) =~= spans);
}

/// A read is refused where the range is empty, begins before the first line or takes in more
/// than 400 lines, where the bytes are no text, and where the slice has more than 65536 bytes;
/// and it is answered otherwise.
pub proof fn unfit_reads_are_refused(
    canonical: Seq<char>,
    workspace: Seq<char>,
    state_root: Seq<char>,
    raw: Seq<u8>,
    bytes: u64,
    modified_nanos: Option<u128>,
    start: u64,
    end: u64,
    previous: Option<CacheEntryModel>,
    spans: Seq<DiffSpan>,
)
    ensures
        ({
            let requested = RequestedRange::Lines { start, end };
            let answer = observed_for(
                canonical,
                workspace,
                state_root,
                raw,
                bytes,
                modified_nanos,
                requested,
                previous,
                spans,
            );
            let good = 1 <= start <= end && end - start < 400;
            let slice = slice_of(vstd::utf8::decode_utf8(raw), requested);
            &&& !good ==> answer == Err::<crate::file_cache::ObservedModel, CacheErrorModel>(
                CacheErrorModel::InvalidRange,
            )
            &&& good && !vstd::utf8::valid_utf8(raw) ==> answer == Err::<
                crate::file_cache::ObservedModel,
                CacheErrorModel,
            >(CacheErrorModel::InvalidUtf8)
            &&& good && vstd::utf8::valid_utf8(raw) ==> (answer is Ok <==> text::byte_len(slice)
                <= 65_536)
        }),
{
}

/// A file can be observed exactly where it is a file below the workspace, with a path of no more
/// than 4096 bytes and no more than 262144 bytes in it. Two reads agree only where the bytes are
/// the same, as many as each look at the file said, and nothing was written in between.
pub proof fn unfit_files_are_refused(
    canonical: Seq<char>,
    is_file: bool,
    bytes: u64,
    workspace: Seq<char>,
    before: Stamp,
    first: Seq<u8>,
    middle: Stamp,
    second: Seq<u8>,
    after: Stamp,
)
    ensures
        unsupported(canonical, is_file, bytes, workspace) is None <==> path::within(
            canonical,
            workspace,
        ) && is_file && bytes <= 262_144 && text::byte_len(canonical) <= 4_096,
        stable_reads(before, first, middle, second, after) <==> first == second && before == middle
            && middle == after && before.bytes == first.len(),
{
}

/// What is kept of a file in a session is named by the digest of the session and the path; two
/// of them are named alike only where these are the same, or where two texts have one digest.
pub proof fn sessions_and_paths_are_told_apart(
    session: Seq<char>,
    canonical: Seq<char>,
    other_session: Seq<char>,
    other_canonical: Seq<char>,
)
    requires
        !session.contains('\0') && !other_session.contains('\0'),
    ensures
        key_of(session, canonical) == digest::sha256_hex(
            vstd::utf8::encode_utf8(session + seq!['\0'] + canonical),
        ),
        session + seq!['\0'] + canonical == other_session + seq!['\0'] + other_canonical ==> session
            == other_session && canonical == other_canonical,
{
    if session + seq!['\0'] + canonical == other_session + seq!['\0'] + other_canonical {
        text::laws::first_pieces_are_cut(session, canonical, '\0');
        text::laws::first_pieces_are_cut(other_session, other_canonical, '\0');
    }
}

} // verus!
