//! What an observation promises of the output it was made from.

use vstd::prelude::*;
use crate::digest;
use crate::json::JsonModel;
use crate::observe::{
    blank, cargo_from, carried_diagnostic, count_in, failed_in, header_in, inline_panic_in,
    line_document, locations_from, marked_from, message_diagnostic, others_from,
    pack_of, panic_place_in, place_in, span_location, summary_in, test_text_from, CargoScanModel,
    DiagnosticModel, InputKind, SourceLocationModel, TestScanModel,
    TestSummaryModel, Verdict,
};
use crate::text;

verus! {

broadcast use vstd::string::group_string_axioms;

/// A document that carries an error of the compiler.
pub open spec fn is_error(document: JsonModel) -> bool {
    &&& document.member("reason"@) == Some(JsonModel::Text("compiler-message"@))
    &&& document.member("message"@) matches Some(message) && message.member("level"@) == Some(
        JsonModel::Text("error"@),
    ) && message.member("message"@) is Some && message.member("message"@)->0 is Text
}

/// A document that says that a build is over.
pub open spec fn ends_build(document: JsonModel) -> bool {
    document.member("reason"@) == Some(JsonModel::Text("build-finished"@))
}

/// The documents of the lines that are not blank.
pub open spec fn documents(lines: Seq<Seq<char>>) -> Seq<JsonModel> {
    lines.filter(|line: Seq<char>| !blank(line)).map_values(
        |line: Seq<char>| line_document(line)->Ok_0,
    )
}

spec fn scanned(scan: CargoScanModel, met: Seq<JsonModel>) -> bool {
    let ends = met.filter(|document: JsonModel| ends_build(document));
    &&& scan.finished == if ends.len() == 0 {
        None
    } else {
        ends.last().member_boolean("success"@)
    }
    &&& (exists|i: int|
        0 <= i < scan.diagnostics.len() && (#[trigger] scan.diagnostics[i]).kind == "error"@)
        <==> exists|k: int| 0 <= k < met.len() && is_error(#[trigger] met[k])
    &&& scan.diagnostics.len() + scan.omitted == met.len()
}

proof fn one_document_is_scanned(scan: CargoScanModel, met: Seq<JsonModel>, document: JsonModel)
    requires
        scanned(scan, met),
    ensures
        scanned(scan.after(document), met.push(document)),
{
    reveal(Seq::filter);
    let next = scan.after(document);
    let all = met.push(document);
    assert(all.drop_last() =~= met);
    let ends = |document: JsonModel| ends_build(document);
    if ends_build(document) {
        assert(all.filter(ends).last() == document);
        assert(document.member_text("reason"@) == Some("build-finished"@));
    }
    assert(ends_build(document) <==> document.member_text("reason"@) == Some("build-finished"@));
    let carried = carried_diagnostic(document);
    assert(is_error(document) <==> carried is Some && carried->0.kind == "error"@);
    if exists|k: int| 0 <= k < met.len() && is_error(#[trigger] met[k]) {
        let k = choose|k: int| 0 <= k < met.len() && is_error(#[trigger] met[k]);
        assert(all[k] == met[k]);
        let i = choose|i: int|
            0 <= i < scan.diagnostics.len() && (#[trigger] scan.diagnostics[i]).kind == "error"@;
        assert(next.diagnostics[i] == scan.diagnostics[i]);
    }
    if is_error(document) {
        assert(all[met.len() as int] == document);
        assert(next.diagnostics[scan.diagnostics.len() as int] == carried->0);
    }
    if exists|k: int| 0 <= k < all.len() && is_error(#[trigger] all[k]) {
        let k = choose|k: int| 0 <= k < all.len() && is_error(#[trigger] all[k]);
        if k < met.len() {
            assert(met[k] == all[k]);
        }
    }
    if exists|i: int|
        0 <= i < next.diagnostics.len() && (#[trigger] next.diagnostics[i]).kind == "error"@ {
        let i = choose|i: int|
            0 <= i < next.diagnostics.len() && (#[trigger] next.diagnostics[i]).kind == "error"@;
        if i < scan.diagnostics.len() {
            assert(scan.diagnostics[i] == next.diagnostics[i]);
        } else {
            assert(is_error(document));
        }
    }
}

proof fn documents_are_scanned_from(lines: Seq<Seq<char>>, i: int, scan: CargoScanModel)
    requires
        0 <= i <= lines.len(),
        scanned(scan, documents(lines.take(i))),
    ensures
        cargo_from(lines, i, scan) matches Ok(end) ==> scanned(end, documents(lines)),
    decreases lines.len() - i,
{
    if i < lines.len() {
        reveal(Seq::filter);
        let line = lines[i];
        assert(lines.take(i + 1).drop_last() =~= lines.take(i));
        let before = documents(lines.take(i));
        if blank(line) {
            assert(documents(lines.take(i + 1)) =~= before);
            documents_are_scanned_from(lines, i + 1, scan);
        } else if line_document(line) is Ok {
            let document = line_document(line)->Ok_0;
            assert(documents(lines.take(i + 1)) =~= before.push(document));
            one_document_is_scanned(scan, before, document);
            documents_are_scanned_from(lines, i + 1, scan.after(document));
        }
    } else {
        assert(lines.take(i) =~= lines);
    }
}

/// The observation of a build fails exactly where a message of the compiler is an error or the
/// last word on the build is that it did not succeed; without an error it passes where that
/// word is that it did, and nothing is known where there is no such word. Every document is
/// either a diagnostic or counted as left out.
pub proof fn builds_are_decided(raw: Seq<u8>)
    ensures
        pack_of(InputKind::CargoJson, raw) matches Ok(pack) ==> {
            let met = documents(text::lines_of(text::utf8_lossy(raw)));
            let ends = met.filter(|document: JsonModel| ends_build(document));
            let broken = exists|k: int| 0 <= k < met.len() && is_error(#[trigger] met[k]);
            let success = ends.last().member("success"@);
            &&& pack.verdict == if broken {
                Verdict::Failed
            } else if ends.len() == 0 {
                Verdict::Unknown
            } else if success == Some(JsonModel::Bool(true)) {
                Verdict::Passed
            } else if success == Some(JsonModel::Bool(false)) {
                Verdict::Failed
            } else {
                Verdict::Unknown
            }
            &&& pack.diagnostics.len() + pack.omitted_sections.count == met.len()
            &&& pack.tests is None
            &&& pack.operation == "cargo-build"@
            &&& pack.raw_artifact.sha256 == digest::sha256_hex(raw)
            &&& pack.raw_artifact.bytes == raw.len()
        },
{
    let lines = text::lines_of(text::utf8_lossy(raw));
    let begin = CargoScanModel::begin();
    assert(documents(lines.take(0)) =~= seq![]) by {
        reveal(Seq::filter);
    }
    assert(Seq::<JsonModel>::empty().filter(|document: JsonModel| ends_build(document)) =~= seq![])
        by {
        reveal(Seq::filter);
    }
    documents_are_scanned_from(lines, 0, begin);
}

proof fn all_are_located(spans: Seq<JsonModel>, i: int)
    requires
        0 <= i <= spans.len(),
        forall|k: int| 0 <= k < spans.len() ==> span_location(#[trigger] spans[k]) is Some,
    ensures
        locations_from(spans, i).len() == spans.len() - i,
        forall|k: int| #![trigger locations_from(spans, i)[k]]
            0 <= k < spans.len() - i ==> Some(locations_from(spans, i)[k]) == span_location(
                spans[i + k],
            ),
    decreases spans.len() - i,
{
    if i < spans.len() {
        all_are_located(spans, i + 1);
        let rest = locations_from(spans, i + 1);
        let all = locations_from(spans, i);
        assert forall|k: int| #![trigger all[k]] 0 <= k < spans.len() - i implies Some(all[k])
            == span_location(spans[i + k]) by {
            if k > 0 {
                assert(all[k] == rest[k - 1]);
            }
        }
    }
}

proof fn first_mark_is_found(spans: Seq<JsonModel>, i: int, n: int)
    requires
        0 <= i <= n < spans.len(),
        spans[n].member_boolean("is_primary"@) == Some(true),
        forall|k: int|
            0 <= k < n ==> (#[trigger] spans[k]).member_boolean("is_primary"@) != Some(true),
    ensures
        marked_from(spans, i) == span_location(spans[n]),
    decreases n - i,
{
    if i < n {
        assert(spans[i].member_boolean("is_primary"@) != Some(true));
        first_mark_is_found(spans, i + 1, n);
    }
}

proof fn others_stay(locations: Seq<SourceLocationModel>, primary: SourceLocationModel, i: int)
    requires
        0 <= i <= locations.len(),
    ensures
        forall|x: SourceLocationModel| #[trigger]
            others_from(locations, primary, i).contains(x) <==> x != primary && exists|k: int|
                i <= k < locations.len() && #[trigger] locations[k] == x,
    decreases locations.len() - i,
{
    if i < locations.len() {
        others_stay(locations, primary, i + 1);
        let rest = others_from(locations, primary, i + 1);
        let all = others_from(locations, primary, i);
        assert forall|x: SourceLocationModel| #[trigger] all.contains(x) <==> x != primary
            && exists|k: int| i <= k < locations.len() && #[trigger] locations[k] == x by {
            assert(rest.contains(x) <==> x != primary && exists|k: int|
                i + 1 <= k < locations.len() && #[trigger] locations[k] == x);
            if locations[i] != primary {
                assert(all == seq![locations[i]] + rest);
                assert(all[0] == locations[i]);
                if all.contains(x) {
                    let n = all.index_of(x);
                    if n > 0 {
                        assert(rest[n - 1] == x);
                    }
                }
                if rest.contains(x) {
                    let n = rest.index_of(x);
                    assert(all[n + 1] == x);
                }
            }
            if exists|k: int| i <= k < locations.len() && #[trigger] locations[k] == x {
                let k = choose|k: int| i <= k < locations.len() && #[trigger] locations[k] == x;
                if k > i {
                    assert(i + 1 <= k);
                }
            }
        }
    }
}

/// A message of the compiler is a diagnostic with its level, its text and its code. It points to
/// the first span that is marked as the main one, and what else its spans point to is related.
pub proof fn messages_are_diagnostics(
    message: JsonModel,
    level: Seq<char>,
    inner: Seq<char>,
    code: Seq<char>,
    coded: JsonModel,
    spans: Seq<JsonModel>,
    n: int,
)
    requires
        message.member("level"@) == Some(JsonModel::Text(level)),
        message.member("message"@) == Some(JsonModel::Text(inner)),
        message.member("code"@) == Some(coded),
        coded.member("code"@) == Some(JsonModel::Text(code)),
        message.member("spans"@) == Some(JsonModel::Array(spans)),
        0 <= n < spans.len(),
        spans[n].member("is_primary"@) == Some(JsonModel::Bool(true)),
        forall|k: int|
            0 <= k < n ==> (#[trigger] spans[k]).member("is_primary"@) != Some(
                JsonModel::Bool(true),
            ),
        forall|k: int| 0 <= k < spans.len() ==> span_location(#[trigger] spans[k]) is Some,
    ensures
        message_diagnostic(message) matches Some(d) && {
            &&& d.kind == level
            &&& d.message == inner
            &&& d.code == Some(code)
            &&& d.primary_location == span_location(spans[n])
            &&& forall|k: int|
                0 <= k < spans.len() && span_location(#[trigger] spans[k]) != span_location(
                    spans[n],
                ) ==> d.related_locations.contains(span_location(spans[k])->0)
            &&& !d.related_locations.contains(span_location(spans[n])->0)
        },
{
    assert forall|k: int| 0 <= k < n implies (#[trigger] spans[k]).member_boolean("is_primary"@)
        != Some(true) by {
        assert(spans[k].member("is_primary"@) != Some(JsonModel::Bool(true)));
    }
    first_mark_is_found(spans, 0, n);
    all_are_located(spans, 0);
    let locations = locations_from(spans, 0);
    let primary = span_location(spans[n])->0;
    others_stay(locations, primary, 0);
    let others = others_from(locations, primary, 0);
    assert forall|k: int|
        0 <= k < spans.len() && span_location(#[trigger] spans[k]) != span_location(
            spans[n],
        ) implies others.contains(span_location(spans[k])->0) by {
        assert(Some(locations[k]) == span_location(spans[0 + k]));
    }
}

/// A span points to its file and to the line and the column that it starts at.
pub proof fn spans_are_located(
    span: JsonModel,
    file: Seq<char>,
    line: crate::json::NumberModel,
    column: crate::json::NumberModel,
)
    requires
        span.member("file_name"@) == Some(JsonModel::Text(file)),
        span.member("line_start"@) == Some(JsonModel::Number(line)),
        span.member("column_start"@) == Some(JsonModel::Number(column)),
    ensures
        span_location(span) == if line.unsigned is Some && column.unsigned is Some {
            Some(
                SourceLocationModel { file, line: line.unsigned->0, column: column.unsigned->0 },
            )
        } else {
            None
        },
{
}

/// A test run is decided by what is summed up: it fails where failures are counted and passes
/// otherwise. Where nothing is summed up it fails where a failure was met, and nothing is known
/// where none was.
pub proof fn test_runs_are_decided(raw: Seq<u8>)
    ensures
        pack_of(InputKind::CargoTestText, raw) matches Ok(pack) ==> {
            &&& pack.tests matches Some(tests) ==> pack.verdict == if tests.failed is Some
                && tests.failed->0 > 0 {
                Verdict::Failed
            } else {
                Verdict::Passed
            }
            &&& pack.tests is None ==> pack.verdict == if pack.diagnostics.len() > 0 {
                Verdict::Failed
            } else {
                Verdict::Unknown
            }
            &&& pack.operation == "cargo-test"@
            &&& pack.raw_artifact.sha256 == digest::sha256_hex(raw)
            &&& pack.raw_artifact.bytes == raw.len()
        },
{
}

/// A line that sums up, and is read as that.
pub open spec fn sums_up(line: Seq<char>) -> bool {
    summary_in(line) is Some && failed_in(line) is None && header_in(line) is None
}

/// The counts that are given, added up; nothing where none is given.
pub open spec fn added(counts: Seq<Option<nat>>) -> Option<nat>
    decreases counts.len(),
{
    if counts.len() == 0 {
        None
    } else {
        match (added(counts.drop_last()), counts.last()) {
            (Some(a), Some(b)) => Some(a + b),
            (Some(a), None) => Some(a),
            (None, last) => last,
        }
    }
}

pub open spec fn added_up(lines: Seq<Seq<char>>) -> Option<TestSummaryModel> {
    let sums = lines.filter(|line: Seq<char>| sums_up(line));
    if sums.len() == 0 {
        None
    } else {
        Some(
            TestSummaryModel {
                passed: added(sums.map_values(|line: Seq<char>| summary_in(line)->0.passed)),
                failed: added(sums.map_values(|line: Seq<char>| summary_in(line)->0.failed)),
                ignored: added(sums.map_values(|line: Seq<char>| summary_in(line)->0.ignored)),
            },
        )
    }
}

/// The diagnostics of the lines that name a failed test.
pub open spec fn failures(lines: Seq<Seq<char>>) -> Seq<DiagnosticModel> {
    lines.filter(|line: Seq<char>| failed_in(line) is Some).map_values(
        |line: Seq<char>|
            DiagnosticModel {
                kind: "test_failure"@,
                code: None,
                message: failed_in(line)->0,
                primary_location: None,
                related_locations: seq![],
            },
    )
}

proof fn calm_lines_are_read_from(lines: Seq<Seq<char>>, i: int, scan: TestScanModel)
    requires
        0 <= i <= lines.len(),
        forall|k: int|
            0 <= k < lines.len() ==> inline_panic_in(#[trigger] lines[k]) is None && panic_place_in(
                lines[k],
            ) is None,
        scan.pending is None,
        scan.summary == added_up(lines.take(i)),
        scan.diagnostics == failures(lines.take(i)),
    ensures
        test_text_from(lines, i, scan) matches Some(end) ==> end.summary == added_up(lines)
            && end.diagnostics == failures(lines),
    decreases lines.len() - i,
{
    if i < lines.len() {
        reveal(Seq::filter);
        let line = lines[i];
        let before = lines.take(i);
        let after = lines.take(i + 1);
        assert(after.drop_last() =~= before);
        assert(after.last() == line);
        assert(inline_panic_in(line) is None && panic_place_in(line) is None);
        let sum = |line: Seq<char>| sums_up(line);
        let next = scan.after(line);
        if failed_in(line) is Some {
            assert(failures(after) =~= failures(before).push(next.diagnostics.last()));
        } else {
            assert(failures(after) =~= failures(before));
        }
        if sums_up(line) {
            let old_sums = before.filter(sum);
            let sums = after.filter(sum);
            assert(sums == old_sums.push(line));
            let passed = |line: Seq<char>| summary_in(line)->0.passed;
            let failed = |line: Seq<char>| summary_in(line)->0.failed;
            let ignored = |line: Seq<char>| summary_in(line)->0.ignored;
            assert(sums.map_values(passed).drop_last() =~= old_sums.map_values(passed));
            assert(sums.map_values(failed).drop_last() =~= old_sums.map_values(failed));
            assert(sums.map_values(ignored).drop_last() =~= old_sums.map_values(ignored));
            if old_sums.len() == 0 {
                assert(added(old_sums.map_values(passed)) is None);
                assert(added(old_sums.map_values(failed)) is None);
                assert(added(old_sums.map_values(ignored)) is None);
            }
            assert(next.summary == added_up(after));
        } else {
            assert(added_up(after) == added_up(before));
        }
        calm_lines_are_read_from(lines, i + 1, next);
    } else {
        assert(lines.take(i) =~= lines);
    }
}

/// Where no line tells of a panic, the counts of a test run are those of all the lines that sum
/// up, added together, and its diagnostics are the tests that are named as failed, in order.
pub proof fn summaries_are_added_up(raw: Seq<u8>)
    requires
        forall|k: int|
            0 <= k < text::lines_of(text::utf8_lossy(raw)).len() ==> inline_panic_in(
                #[trigger] text::lines_of(text::utf8_lossy(raw))[k],
            ) is None && panic_place_in(text::lines_of(text::utf8_lossy(raw))[k]) is None,
    ensures
        pack_of(InputKind::CargoTestText, raw) matches Ok(pack) ==> {
            let lines = text::lines_of(text::utf8_lossy(raw));
            pack.tests == added_up(lines) && pack.diagnostics == failures(lines)
        },
{
    let lines = text::lines_of(text::utf8_lossy(raw));
    let none = lines.take(0);
    assert(none.filter(|line: Seq<char>| sums_up(line)) =~= seq![] && none.filter(
        |line: Seq<char>| failed_in(line) is Some,
    ) =~= seq![]) by {
        reveal(Seq::filter);
    }
    assert(failures(none) =~= seq![]);
    calm_lines_are_read_from(lines, 0, TestScanModel::begin());
}

/// A count is the number in front of its name, where that stands with a space in front and a
/// semicolon behind.
pub proof fn counts_are_read(before: Seq<char>, n: u64, name: Seq<char>, after: Seq<char>)
    requires
        ({
            let digits = text::decimal(n as nat);
            let line = before + seq![' '] + digits + (seq![' '] + name + seq![';']) + after;
            text::found(line, seq![' '] + name + seq![';']) == Some(
                (before.len() + 1 + digits.len()) as int,
            )
        }),
    ensures
        count_in(
            before + seq![' '] + text::decimal(n as nat) + (seq![' '] + name + seq![';']) + after,
            name,
        ) == Some(n),
{
    let digits = text::decimal(n as nat);
    let line = before + seq![' '] + digits + (seq![' '] + name + seq![';']) + after;
    let front = before + seq![' '] + digits;
    assert(line.subrange(0, (before.len() + 1 + digits.len()) as int) =~= front);
    text::laws::written_numbers_are_read(n as nat);
    assert forall|k: int| 0 <= k < digits.len() implies !text::white_space(#[trigger] digits[k]) by {
        assert(text::ascii_digit(digits[k]));
    }
    text::laws::last_words_are_read(before, ' ', digits);
}

/// A failed test is named between the first word of its line and the end that says so; the head
/// of its output names it between dashes; and a summary begins as one.
pub proof fn test_lines_are_read(test: Seq<char>, rest: Seq<char>)
    requires
        test.len() > 0,
    ensures
        failed_in("test "@ + test + " ... FAILED"@) == Some(test),
        header_in("---- "@ + test + " stdout ----"@) == Some(test),
        rest.len() > 0 && !text::white_space(rest.last()) ==> summary_in("test result:"@ + rest)
            is Some,
{
    reveal_strlit("test ");
    reveal_strlit(" ... FAILED");
    reveal_strlit("---- ");
    reveal_strlit(" stdout ----");
    reveal_strlit("test result:");
    let failed = "test "@ + test + " ... FAILED"@;
    let header = "---- "@ + test + " stdout ----"@;
    let summary = "test result:"@ + rest;
    let empty = Seq::<char>::empty();
    assert(failed[0] == 't' && failed.last() == " ... FAILED"@.last());
    text::laws::surrounding_space_is_trimmed(empty, failed, empty);
    assert(empty + failed + empty =~= failed);
    assert(failed.subrange(0, 5) =~= "test "@);
    let inner = failed.subrange(5, failed.len() as int);
    assert(inner =~= test + " ... FAILED"@);
    assert(inner.subrange(inner.len() - 11, inner.len() as int) =~= " ... FAILED"@);
    assert(inner.subrange(0, inner.len() - 11) =~= test);
    assert(header[0] == '-' && header.last() == " stdout ----"@.last());
    text::laws::surrounding_space_is_trimmed(empty, header, empty);
    assert(empty + header + empty =~= header);
    assert(header.subrange(0, 5) =~= "---- "@);
    let named = header.subrange(5, header.len() as int);
    assert(named =~= test + " stdout ----"@);
    assert(named.subrange(named.len() - 12, named.len() as int) =~= " stdout ----"@);
    assert(named.subrange(0, named.len() - 12) =~= test);
    if rest.len() > 0 && !text::white_space(rest.last()) {
        assert(summary[0] == 't' && summary.last() == rest.last());
        text::laws::surrounding_space_is_trimmed(empty, summary, empty);
        assert(empty + summary + empty =~= summary);
        assert(summary.subrange(0, 12) =~= "test result:"@);
    }
}

/// A file, a line and a column with colons between them are a place.
pub proof fn places_are_read(file: Seq<char>, line: u64, column: u64)
    ensures
        place_in(
            file + seq![':'] + text::decimal(line as nat) + seq![':'] + text::decimal(
                column as nat,
            ),
        ) == Some(SourceLocationModel { file, line, column }),
{
    reveal_strlit(":");
    assert(":"@ =~= seq![':']);
    let l = text::decimal(line as nat);
    let c = text::decimal(column as nat);
    text::laws::written_numbers_are_read(line as nat);
    text::laws::written_numbers_are_read(column as nat);
    assert(!l.contains(':')) by {
        if l.contains(':') {
            assert(text::ascii_digit(l[l.index_of(':')]));
        }
    }
    assert(!c.contains(':')) by {
        if c.contains(':') {
            assert(text::ascii_digit(c[c.index_of(':')]));
        }
    }
    text::laws::last_pieces_are_cut(file + seq![':'] + l, c, ':');
    text::laws::last_pieces_are_cut(file, l, ':');
}

/// A line that tells where a panic happened ends in the place and a colon.
pub proof fn panic_lines_are_read(front: Seq<char>, file: Seq<char>, line: u64, column: u64)
    requires
        text::found(front + "panicked at "@, "panicked at "@) == Some(front.len() as int),
        file.len() > 0,
        !text::white_space(file[0]),
    ensures
        ({
            let place = file + seq![':'] + text::decimal(line as nat) + seq![':'] + text::decimal(
                column as nat,
            );
            panic_place_in(front + "panicked at "@ + place + seq![':']) == Some(
                SourceLocationModel { file, line, column },
            )
        }),
{
    reveal_strlit("panicked at ");
    reveal_strlit(":");
    let c = text::decimal(column as nat);
    let place = file + seq![':'] + text::decimal(line as nat) + seq![':'] + c;
    let told = front + "panicked at "@ + place + seq![':'];
    let n = front.len() as int;
    let marker = "panicked at "@;
    let opening = front + marker;
    text::laws::parts_are_found(opening, marker);
    text::laws::parts_are_found(told, marker);
    assert(told.subrange(n, n + 12) =~= marker);
    assert(text::occurs_at(told, marker, n));
    assert forall|j: int| 0 <= j < n implies !text::occurs_at(told, marker, j) by {
        if text::occurs_at(told, marker, j) {
            assert(opening.subrange(j, j + 12) =~= told.subrange(j, j + 12));
            assert(text::occurs_at(opening, marker, j));
        }
    }
    assert(text::found(told, marker) == Some(n));
    let details = place + seq![':'];
    assert(told.subrange(n + 12, told.len() as int) =~= details);
    text::laws::surrounding_space_is_trimmed(seq![], details, seq![]);
    assert(details[0] == file[0]);
    assert(seq![] + details + seq![] =~= details);
    assert(details.subrange(details.len() - 1, details.len() as int) =~= ":"@);
    assert(details.subrange(0, details.len() - 1) =~= place);
    places_are_read(file, line, column);
}

/// A panic that has been met.
pub open spec fn panic_of(
    test: Seq<char>,
    message: Seq<char>,
    place: Option<SourceLocationModel>,
    d: DiagnosticModel,
) -> bool {
    d.kind == "test_panic"@ && d.message == test + ": "@ + message && d.primary_location == place
}

proof fn panics_stay(
    lines: Seq<Seq<char>>,
    i: int,
    scan: TestScanModel,
    test: Seq<char>,
    message: Seq<char>,
    place: Option<SourceLocationModel>,
    n: int,
)
    requires
        0 <= n < scan.diagnostics.len(),
        panic_of(test, message, place, scan.diagnostics[n]),
    ensures
        test_text_from(lines, i, scan) matches Some(end) ==> n < end.diagnostics.len() && panic_of(
            test,
            message,
            place,
            end.diagnostics[n],
        ),
    decreases lines.len() - i,
{
    if 0 <= i < lines.len() {
        let next = scan.after(lines[i]);
        one_panic_stays(scan, lines[i], test, message, place, n);
        panics_stay(lines, i + 1, next, test, message, place, n);
    }
}

proof fn failures_are_named(diagnostics: Seq<DiagnosticModel>, test: Seq<char>, i: int)
    requires
        0 <= i,
    ensures
        crate::observe::failure_from(diagnostics, test, i) matches Some(k) ==> i <= k
            < diagnostics.len() && diagnostics[k].kind == "test_failure"@ && diagnostics[k].message
            == test,
    decreases diagnostics.len() - i,
{
    if i < diagnostics.len() {
        failures_are_named(diagnostics, test, i + 1);
    }
}

proof fn one_panic_stays(
    scan: TestScanModel,
    line: Seq<char>,
    test: Seq<char>,
    message: Seq<char>,
    place: Option<SourceLocationModel>,
    n: int,
)
    requires
        0 <= n < scan.diagnostics.len(),
        panic_of(test, message, place, scan.diagnostics[n]),
    ensures
        ({
            let next = scan.after(line);
            n < next.diagnostics.len() && panic_of(test, message, place, next.diagnostics[n])
        }),
{
    reveal_strlit("test_failure");
    reveal_strlit("test_panic");
    assert("test_failure"@.len() == 12 && "test_panic"@.len() == 10);
    if scan.current is Some {
        failures_are_named(scan.diagnostics, scan.current->0, 0);
        let k = crate::observe::failure_from(scan.diagnostics, scan.current->0, 0);
        if k is Some {
            assert(scan.diagnostics[k->0].kind == "test_failure"@);
            assert(k->0 != n);
        }
    }
    let next = scan.after(line);
    assert(n < next.diagnostics.len());
    assert(next.diagnostics[n] == scan.diagnostics[n]);
}

/// Where the output of a test begins and its next line tells where it panicked and the line
/// behind that why, there is a diagnostic with the name of the test, the reason and the place.
pub proof fn panics_are_reported(raw: Seq<u8>, k: int, test: Seq<char>, place: SourceLocationModel)
    requires
        ({
            let lines = text::lines_of(text::utf8_lossy(raw));
            &&& 0 <= k
            &&& k + 2 < lines.len()
            &&& failed_in(lines[k]) is None && header_in(lines[k]) == Some(test)
            &&& failed_in(lines[k + 1]) is None && header_in(lines[k + 1]) is None
                && inline_panic_in(lines[k + 1]) is None && panic_place_in(lines[k + 1]) == Some(
                place,
            )
            &&& failed_in(lines[k + 2]) is None && header_in(lines[k + 2]) is None
                && inline_panic_in(lines[k + 2]) is None && panic_place_in(lines[k + 2]) is None
                && !blank(lines[k + 2])
        }),
    ensures
        pack_of(InputKind::CargoTestText, raw) matches Ok(pack) ==> exists|n: int|
            0 <= n < pack.diagnostics.len() && panic_of(
                test,
                text::trimmed(text::lines_of(text::utf8_lossy(raw))[k + 2]),
                Some(place),
                #[trigger] pack.diagnostics[n],
            ),
{
    let lines = text::lines_of(text::utf8_lossy(raw));
    if pack_of(InputKind::CargoTestText, raw) is Ok {
        panics_are_reported_from(lines, 0, TestScanModel::begin(), k, test, place);
        let pack = pack_of(InputKind::CargoTestText, raw)->Ok_0;
        let end = test_text_from(lines, 0, TestScanModel::begin())->0;
        let message = text::trimmed(lines[k + 2]);
        let n = choose|n: int|
            0 <= n < end.diagnostics.len() && panic_of(
                test,
                message,
                Some(place),
                #[trigger] end.diagnostics[n],
            );
        assert(panic_of(test, message, Some(place), pack.diagnostics[n]));
    }
}

proof fn panics_are_reported_from(
    lines: Seq<Seq<char>>,
    i: int,
    scan: TestScanModel,
    k: int,
    test: Seq<char>,
    place: SourceLocationModel,
)
    requires
        0 <= i <= k,
        k + 2 < lines.len(),
        failed_in(lines[k]) is None && header_in(lines[k]) == Some(test),
        failed_in(lines[k + 1]) is None && header_in(lines[k + 1]) is None && inline_panic_in(
            lines[k + 1],
        ) is None && panic_place_in(lines[k + 1]) == Some(place),
        failed_in(lines[k + 2]) is None && header_in(lines[k + 2]) is None && inline_panic_in(
            lines[k + 2],
        ) is None && panic_place_in(lines[k + 2]) is None && !blank(lines[k + 2]),
    ensures
        test_text_from(lines, i, scan) matches Some(end) ==> exists|n: int|
            0 <= n < end.diagnostics.len() && panic_of(
                test,
                text::trimmed(lines[k + 2]),
                Some(place),
                #[trigger] end.diagnostics[n],
            ),
    decreases k - i,
{
    if i < k {
        panics_are_reported_from(lines, i + 1, scan.after(lines[i]), k, test, place);
    } else {
        let message = text::trimmed(lines[k + 2]);
        let headed = scan.after(lines[k]);
        let placed = headed.after(lines[k + 1]);
        let told = placed.after(lines[k + 2]);
        failures_are_named(placed.diagnostics, test, 0);
        let n = match crate::observe::failure_from(placed.diagnostics, test, 0) {
            Some(n) => n,
            None => placed.diagnostics.len() as int,
        };
        assert(panic_of(test, message, Some(place), told.diagnostics[n]));
        panics_stay(lines, k + 3, told, test, message, Some(place), n);
        reveal_with_fuel(test_text_from, 4);
        if test_text_from(lines, i, scan) is Some {
            let end = test_text_from(lines, i, scan)->0;
            assert(test_text_from(lines, k + 3, told) == Some(end));
            assert(panic_of(test, message, Some(place), end.diagnostics[n]));
        }
    }
}

} // verus!
