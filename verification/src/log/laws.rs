//! What a normalized report promises of the output it was read from.

use vstd::prelude::*;
use crate::digest;
use crate::json::{self, JsonModel};
use crate::log::{
    after_log_line, junit_from, log_lines_from, nextest_from, pack_of, place_in,
    sarif_diagnostic, sarif_fails, sarif_message, sarif_results_from, sarif_runs_from, status_of,
    summary_from, summary_in, test_in, DiagnosticCategory, DiagnosticModel, FindingsModel,
    InputKind, JunitScanModel, LogPackModel, NextestScanModel, OmissionModel, SarifScanModel, TestCountsModel, Verdict,
};
use crate::path::{self, Platform};
use crate::text;
use crate::xml::{self, XmlElementModel, XmlEventModel};

verus! {

broadcast use vstd::string::group_string_axioms;

/// A message as it is shown: no more than 512 characters of it, and three dots where it is
/// longer.
pub open spec fn shortened(message: Seq<char>) -> Seq<char> {
    if message.len() > 512 {
        message.take(512) + "..."@
    } else {
        message
    }
}

/// What is shown of diagnostics: the first 32 of them, with their messages shortened, and how
/// many there are besides.
pub open spec fn shown(diagnostics: Seq<DiagnosticModel>) -> FindingsModel {
    let n = if diagnostics.len() <= 32 {
        diagnostics.len()
    } else {
        32
    };
    FindingsModel {
        diagnostics: Seq::new(
            n,
            |i: int|
                DiagnosticModel { message: shortened(diagnostics[i].message), ..diagnostics[i] },
        ),
        omitted: (diagnostics.len() - n) as nat,
    }
}

proof fn shown_with_one_more(diagnostics: Seq<DiagnosticModel>, d: DiagnosticModel)
    ensures
        shown(diagnostics).with(d) == shown(diagnostics.push(d)),
{
    let more = shown(diagnostics.push(d));
    assert(shown(diagnostics).with(d).diagnostics =~= more.diagnostics);
}

proof fn nothing_is_shown()
    ensures
        FindingsModel::none() == shown(seq![]),
{
    assert(FindingsModel::none().diagnostics =~= shown(seq![]).diagnostics);
}

/// A pack says what was reported: the diagnostics that are shown, and how many are left out
/// and why.
pub open spec fn reports(pack: LogPackModel, diagnostics: Seq<DiagnosticModel>) -> bool {
    &&& pack.diagnostics == shown(diagnostics).diagnostics
    &&& diagnostics.len() <= 32 ==> pack.omitted is None
    &&& diagnostics.len() > 32 ==> pack.omitted == Some(
        OmissionModel {
            count: (diagnostics.len() - 32) as nat,
            reason: "diagnostic limit exceeded"@,
        },
    )
}

/// A line tells of something where it holds the word, in capital or small letters.
pub open spec fn tells(line: Seq<char>, word: Seq<char>) -> bool {
    exists|k: int|
        0 <= k && k + word.len() <= line.len() && #[trigger] text::lowered(line).subrange(
            k,
            k + word.len(),
        ) == word
}

/// A line of a plain log that is shown.
pub open spec fn tells_of_trouble(line: Seq<char>) -> bool {
    tells(line, "panic"@) || tells(line, "error"@) || tells(line, "fail"@)
}

/// The diagnostic that a line of a plain log becomes: of the first word that it holds.
pub open spec fn trouble_in(line: Seq<char>) -> DiagnosticModel {
    let place = place_in(line);
    DiagnosticModel {
        category: if tells(line, "panic"@) {
            DiagnosticCategory::Panic
        } else if tells(line, "error"@) {
            DiagnosticCategory::Error
        } else {
            DiagnosticCategory::Failure
        },
        rule_id: None,
        message: line,
        file: place.file,
        line: place.line,
        column: place.column,
        suite: None,
        test: None,
        related_locations: seq![],
    }
}

proof fn words_are_told(line: Seq<char>, word: Seq<char>)
    ensures
        text::has(text::lowered(line), word) <==> tells(line, word),
{
    text::laws::parts_are_found(text::lowered(line), word);
}

/// The diagnostics of the lines of a log that tell of trouble, in their order.
pub open spec fn troubles(lines: Seq<Seq<char>>) -> Seq<DiagnosticModel> {
    lines.filter(|line: Seq<char>| tells_of_trouble(line)).map_values(
        |line: Seq<char>| trouble_in(line),
    )
}

proof fn one_more_kept<A>(items: Seq<A>, i: int, keep: spec_fn(A) -> bool)
    requires
        0 <= i < items.len(),
    ensures
        items.take(i + 1).filter(keep) == if keep(items[i]) {
            items.take(i).filter(keep).push(items[i])
        } else {
            items.take(i).filter(keep)
        },
{
    reveal(Seq::filter);
    assert(items.take(i + 1).drop_last() =~= items.take(i));
}

proof fn kept_are_there<A>(items: Seq<A>, i: int, keep: spec_fn(A) -> bool)
    requires
        0 <= i <= items.len(),
    ensures
        items.take(i).filter(keep).len() > 0 <==> exists|k: int| 0 <= k < i && keep(#[trigger] items[k]),
        items.take(i).filter(keep).len() <= i,
    decreases i,
{
    if i > 0 {
        kept_are_there(items, i - 1, keep);
        one_more_kept(items, i - 1, keep);
    } else {
        reveal(Seq::filter);
    }
}

proof fn troubles_are_shown_from(lines: Seq<Seq<char>>, i: int)
    requires
        0 <= i <= lines.len(),
    ensures
        log_lines_from(lines, i, shown(troubles(lines.take(i)))) == shown(troubles(lines)),
    decreases lines.len() - i,
{
    let keep = |line: Seq<char>| tells_of_trouble(line);
    if i < lines.len() {
        let line = lines[i];
        words_are_told(line, "panic"@);
        words_are_told(line, "error"@);
        words_are_told(line, "fail"@);
        one_more_kept(lines, i, keep);
        let before = troubles(lines.take(i));
        if tells_of_trouble(line) {
            shown_with_one_more(before, trouble_in(line));
            assert(troubles(lines.take(i + 1)) =~= before.push(trouble_in(line)));
        } else {
            assert(troubles(lines.take(i + 1)) =~= before);
        }
        assert(after_log_line(shown(before), line) == shown(troubles(lines.take(i + 1))));
        troubles_are_shown_from(lines, i + 1);
    } else {
        assert(lines.take(i) =~= lines);
    }
}

/// The verdict on a plain log is that it failed where its process failed or some line of it
/// tells of a panic, an error or a failure, and that nothing is known where none does: a plain
/// log never passes. Its diagnostics are the lines that tell of trouble, in their order.
pub proof fn plain_logs_never_pass(raw: Seq<u8>, success: bool, root: Seq<char>)
    ensures
        pack_of(InputKind::GenericText, raw, success, root) matches Ok(pack) && {
            let lines = text::lines_of(text::utf8_lossy(raw));
            let trouble = exists|k: int|
                0 <= k < lines.len() && tells_of_trouble(#[trigger] lines[k]);
            &&& pack.verdict == if trouble || !success {
                Verdict::Failed
            } else {
                Verdict::Unknown
            }
            &&& pack.verdict != Verdict::Passed
            &&& reports(pack, troubles(lines))
            &&& pack.counts == TestCountsModel { total: 0, passed: 0, failed: 0, skipped: 0, errors: 0 }
            &&& !pack.complete
        },
{
    let lines = text::lines_of(text::utf8_lossy(raw));
    let keep = |line: Seq<char>| tells_of_trouble(line);
    assert(lines.take(0).filter(keep) =~= seq![]) by {
        reveal(Seq::filter);
    }
    assert(troubles(lines.take(0)) =~= seq![]);
    nothing_is_shown();
    troubles_are_shown_from(lines, 0);
    kept_are_there(lines, lines.len() as int, keep);
    assert(lines.take(lines.len() as int) =~= lines);
    assert(troubles(lines).len() == lines.filter(keep).len());
}

proof fn place_is_parted(file: Seq<char>, line: u64, column: u64)
    ensures
        ({
            let l = text::decimal(line as nat);
            let c = text::decimal(column as nat);
            let place = file + seq![':'] + l + seq![':'] + c;
            let parts = text::pieces(text::trimmed_end_of(place, ':'), ':');
            &&& parts == text::pieces(file, ':') + seq![l, c]
            &&& text::number_of(text::trimmed(l)) == Some(line)
            &&& text::number_of(text::trimmed(c)) == Some(column)
        }),
{
    let l = text::decimal(line as nat);
    let c = text::decimal(column as nat);
    let place = file + seq![':'] + l + seq![':'] + c;
    text::laws::written_numbers_are_read(line as nat);
    text::laws::written_numbers_are_read(column as nat);
    assert(text::ascii_digit(c[c.len() - 1]));
    assert(text::ascii_digit(c[0]));
    assert(text::ascii_digit(l[l.len() - 1]));
    assert(text::ascii_digit(l[0]));
    text::laws::surrounding_space_is_trimmed(seq![], l, seq![]);
    assert(seq![] + l + seq![] =~= l);
    text::laws::surrounding_space_is_trimmed(seq![], c, seq![]);
    assert(seq![] + c + seq![] =~= c);
    assert(place.last() == c.last());
    text::laws::trailing_chars_are_dropped(place, ':', 0);
    assert(place + Seq::new(0, |i: int| ':') =~= place);
    assert(!l.contains(':')) by {
        if l.contains(':') {
            let k = l.index_of(':');
            assert(text::ascii_digit(l[k]));
        }
    }
    assert(!c.contains(':')) by {
        if c.contains(':') {
            let k = c.index_of(':');
            assert(text::ascii_digit(c[k]));
        }
    }
    text::laws::pieces_of_two(c, c, ':');
    text::laws::pieces_of_two(l, c, ':');
    text::laws::pieces_of_two(file, l + seq![':'] + c, ':');
    assert(place =~= file + seq![':'] + (l + seq![':'] + c));
    assert(text::pieces(place, ':') =~= text::pieces(file, ':') + seq![l, c]);
}

/// Where a line ends in a file, a line and a column, with colons between them, these are what
/// its diagnostic points to. What stands in front of the last `at` is no part of the file.
pub proof fn places_are_read(before: Seq<char>, file: Seq<char>, line: u64, column: u64)
    ensures
        ({
            let place = file + seq![':'] + text::decimal(line as nat) + seq![':'] + text::decimal(
                column as nat,
            );
            let told = before + " at "@ + place;
            &&& !text::has(place, " at "@) ==> {
                let found = place_in(place);
                found.file == Some(file) && found.line == Some(line) && found.column == Some(column)
            }
            &&& (forall|j: int| j > before.len() ==> !text::occurs_at(told, " at "@, j)) ==> {
                let found = place_in(told);
                found.file == Some(file) && found.line == Some(line) && found.column == Some(column)
            }
        }),
{
    reveal_strlit(" at ");
    reveal_strlit(":");
    let l = text::decimal(line as nat);
    let c = text::decimal(column as nat);
    let place = file + seq![':'] + l + seq![':'] + c;
    let told = before + " at "@ + place;
    place_is_parted(file, line, column);
    let parts = text::pieces(text::trimmed_end_of(place, ':'), ':');
    text::laws::pieces_can_be_joined(file, ':');
    assert(parts.take(parts.len() - 2) =~= text::pieces(file, ':'));
    assert(":"@ =~= seq![':']);
    assert(parts[parts.len() - 2] == l);
    assert(parts[parts.len() - 1] == c);
    if !text::has(place, " at "@) {
        text::laws::cuts_can_be_mended(place, " at "@);
    }
    if forall|j: int| j > before.len() ==> !text::occurs_at(told, " at "@, j) {
        text::laws::parts_are_found(told, " at "@);
        let n = before.len() as int;
        assert(told.subrange(n, n + 4) =~= " at "@);
        assert(text::occurs_at(told, " at "@, n));
        assert(text::last_found(told, " at "@) == Some(n));
        assert(told.subrange(n + 4, told.len() as int) =~= place);
    }
}

/// How a test case of a JUnit report is written: in one element, with nothing in it, or with
/// one element in it that says why it did not pass.
pub enum CaseBody {
    Closed,
    Nothing,
    Skipped(XmlElementModel),
    Problem(XmlElementModel),
    Explained(XmlElementModel, Option<Seq<char>>, Seq<u8>),
}

/// A test case and what is in it.
pub struct WrittenCase {
    pub element: XmlElementModel,
    pub body: CaseBody,
}

impl WrittenCase {
    /// The elements have the names that the report format gives them.
    pub open spec fn named(self) -> bool {
        &&& xml::spells(self.element.name, "testcase"@)
        &&& match self.body {
            CaseBody::Skipped(e) => xml::spells(e.name, "skipped"@),
            CaseBody::Problem(e) => xml::spells(e.name, "failure"@) || xml::spells(
                e.name,
                "error"@,
            ),
            CaseBody::Explained(e, _, _) => xml::spells(e.name, "failure"@) || xml::spells(
                e.name,
                "error"@,
            ),
            _ => true,
        }
    }

    pub open spec fn passes(self) -> bool {
        self.body is Closed || self.body is Nothing
    }

    pub open spec fn fails(self) -> bool {
        match self.body {
            CaseBody::Problem(e) => xml::spells(e.name, "failure"@),
            CaseBody::Explained(e, _, _) => xml::spells(e.name, "failure"@),
            _ => false,
        }
    }

    pub open spec fn errs(self) -> bool {
        match self.body {
            CaseBody::Problem(e) => xml::spells(e.name, "error"@),
            CaseBody::Explained(e, _, _) => xml::spells(e.name, "error"@),
            _ => false,
        }
    }

    pub open spec fn written(self) -> Seq<XmlEventModel> {
        let start = XmlEventModel::Start(self.element);
        let end = XmlEventModel::End(self.element.name);
        match self.body {
            CaseBody::Closed => seq![XmlEventModel::Empty(self.element)],
            CaseBody::Nothing => seq![start, end],
            CaseBody::Skipped(e) => seq![start, XmlEventModel::Empty(e), end],
            CaseBody::Problem(e) => seq![start, XmlEventModel::Empty(e), end],
            CaseBody::Explained(e, unescaped, raw) => seq![
                start,
                XmlEventModel::Start(e),
                XmlEventModel::Text(unescaped, raw),
                XmlEventModel::End(e.name),
                end,
            ],
        }
    }

    /// The diagnostic of a case that failed or erred: the message is that of the element, or
    /// its text where it has none.
    pub open spec fn diagnostic(self, suite: Option<Seq<char>>) -> DiagnosticModel {
        let e = match self.body {
            CaseBody::Problem(e) => e,
            CaseBody::Explained(e, _, _) => e,
            _ => self.element,
        };
        let stated = match e.attribute("message"@) {
            Some(message) => message,
            None => seq![],
        };
        DiagnosticModel {
            category: if self.errs() {
                DiagnosticCategory::Error
            } else {
                DiagnosticCategory::Failure
            },
            rule_id: None,
            message: match self.body {
                CaseBody::Explained(_, unescaped, raw) if stated.len() == 0 => match unescaped {
                    Some(inner) => inner,
                    None => text::utf8_lossy(raw),
                },
                _ => stated,
            },
            file: e.attribute("file"@),
            line: match e.attribute("line"@) {
                Some(number) => text::number_of(number),
                None => None,
            },
            column: match e.attribute("column"@) {
                Some(number) => text::number_of(number),
                None => None,
            },
            suite,
            test: self.element.attribute("name"@),
            related_locations: seq![],
        }
    }
}

pub open spec fn written_cases(cases: Seq<WrittenCase>, i: int) -> Seq<XmlEventModel>
    decreases cases.len() - i,
{
    if i < 0 || i >= cases.len() {
        seq![]
    } else {
        cases[i].written() + written_cases(cases, i + 1)
    }
}

/// A suite and the test cases in it.
pub struct WrittenSuite {
    pub element: XmlElementModel,
    pub cases: Seq<WrittenCase>,
}

impl WrittenSuite {
    pub open spec fn named(self) -> bool {
        &&& xml::spells(self.element.name, "testsuite"@)
        &&& forall|k: int| 0 <= k < self.cases.len() ==> (#[trigger] self.cases[k]).named()
    }

    pub open spec fn written(self) -> Seq<XmlEventModel> {
        seq![XmlEventModel::Start(self.element)] + written_cases(self.cases, 0) + seq![
            XmlEventModel::End(self.element.name),
        ]
    }
}

pub open spec fn written_suites(suites: Seq<WrittenSuite>, i: int) -> Seq<XmlEventModel>
    decreases suites.len() - i,
{
    if i < 0 || i >= suites.len() {
        seq![]
    } else {
        suites[i].written() + written_suites(suites, i + 1)
    }
}

/// A test case with the name of its suite.
pub struct PlacedCase {
    pub suite: Option<Seq<char>>,
    pub case: WrittenCase,
}

/// The test cases of suites, in their order.
pub open spec fn placed_cases(suites: Seq<WrittenSuite>) -> Seq<PlacedCase>
    decreases suites.len(),
{
    if suites.len() == 0 {
        seq![]
    } else {
        placed_cases(suites.drop_last()) + placed(
            suites.last().element.attribute("name"@),
            suites.last().cases,
        )
    }
}

pub open spec fn placed(suite: Option<Seq<char>>, cases: Seq<WrittenCase>) -> Seq<PlacedCase> {
    cases.map_values(|case: WrittenCase| PlacedCase { suite, case })
}

/// The counts of cases that are written, each by what is in it.
pub open spec fn counted(cases: Seq<PlacedCase>) -> TestCountsModel {
    TestCountsModel {
        total: cases.len(),
        passed: cases.filter(|c: PlacedCase| c.case.passes()).len(),
        failed: cases.filter(|c: PlacedCase| c.case.fails()).len(),
        skipped: cases.filter(|c: PlacedCase| c.case.body is Skipped).len(),
        errors: cases.filter(|c: PlacedCase| c.case.errs()).len(),
    }
}

pub open spec fn case_problems(cases: Seq<PlacedCase>) -> Seq<DiagnosticModel> {
    cases.filter(|c: PlacedCase| c.case.fails() || c.case.errs()).map_values(
        |c: PlacedCase| c.case.diagnostic(c.suite),
    )
}

spec fn inside(scan: JunitScanModel, suites: Seq<Option<Seq<char>>>, done: Seq<PlacedCase>) -> bool {
    &&& scan.counts == counted(done)
    &&& scan.findings == shown(case_problems(done))
    &&& scan.suites == suites
    &&& scan.current is None
    &&& scan.pending is None
    &&& scan.open_elements == suites.len()
}

proof fn names_are_told_apart(name: Seq<u8>)
    ensures
        xml::spells(name, "testsuite"@) ==> name.len() == 9,
        xml::spells(name, "testcase"@) ==> name.len() == 8,
        xml::spells(name, "failure"@) ==> name.len() == 7 && name[0] == 102,
        xml::spells(name, "error"@) ==> name.len() == 5,
        xml::spells(name, "skipped"@) ==> name.len() == 7 && name[0] == 115,
{
    reveal_strlit("testsuite");
    reveal_strlit("testcase");
    reveal_strlit("failure");
    reveal_strlit("error");
    reveal_strlit("skipped");
}

proof fn one_more_at_the_end<A>(items: Seq<A>, item: A, keep: spec_fn(A) -> bool)
    ensures
        items.push(item).filter(keep) == if keep(item) {
            items.filter(keep).push(item)
        } else {
            items.filter(keep)
        },
{
    reveal(Seq::filter);
    assert(items.push(item).drop_last() =~= items);
}

proof fn one_case_counts(done: Seq<PlacedCase>, c: PlacedCase)
    requires
        c.case.named(),
    ensures
        counted(done.push(c)) == (TestCountsModel {
            total: counted(done).total + 1,
            passed: counted(done).passed + if c.case.passes() {
                1nat
            } else {
                0nat
            },
            failed: counted(done).failed + if c.case.fails() {
                1nat
            } else {
                0nat
            },
            skipped: counted(done).skipped + if c.case.body is Skipped {
                1nat
            } else {
                0nat
            },
            errors: counted(done).errors + if c.case.errs() {
                1nat
            } else {
                0nat
            },
        }),
        shown(case_problems(done.push(c))) == if c.case.fails() || c.case.errs() {
            shown(case_problems(done)).with(c.case.diagnostic(c.suite))
        } else {
            shown(case_problems(done))
        },
{
    one_more_at_the_end(done, c, |c: PlacedCase| c.case.passes());
    one_more_at_the_end(done, c, |c: PlacedCase| c.case.fails());
    one_more_at_the_end(done, c, |c: PlacedCase| c.case.body is Skipped);
    one_more_at_the_end(done, c, |c: PlacedCase| c.case.errs());
    one_more_at_the_end(done, c, |c: PlacedCase| c.case.fails() || c.case.errs());
    let before = case_problems(done);
    let after = case_problems(done.push(c));
    if c.case.fails() || c.case.errs() {
        assert(after =~= before.push(c.case.diagnostic(c.suite)));
        shown_with_one_more(before, c.case.diagnostic(c.suite));
    } else {
        assert(after =~= before);
    }
}

proof fn one_case_is_read(
    events: Seq<XmlEventModel>,
    p: int,
    scan: JunitScanModel,
    suite: Option<Seq<char>>,
    done: Seq<PlacedCase>,
    case: WrittenCase,
) -> (next: JunitScanModel)
    requires
        case.named(),
        0 <= p,
        p + case.written().len() <= events.len(),
        events.subrange(p, p + case.written().len()) == case.written(),
        inside(scan, seq![suite], done),
    ensures
        junit_from(events, p, scan) == junit_from(events, p + case.written().len(), next),
        inside(next, seq![suite], done.push(PlacedCase { suite, case })),
        next.saw_suite == scan.saw_suite,
{
    reveal_with_fuel(junit_from, 6);
    let written = case.written();
    assert forall|k: int| 0 <= k < written.len() implies events[p + k] == #[trigger] written[k] by {
        assert(events.subrange(p, p + written.len())[k] == events[p + k]);
    }
    names_are_told_apart(case.element.name);
    one_case_counts(done, PlacedCase { suite, case });
    assert(events[p] == written[0]);
    match case.body {
        CaseBody::Closed => {
            let next = scan.after_empty(case.element);
            next
        },
        CaseBody::Nothing => {
            assert(events[p + 1] == written[1]);
            let next = scan.after_start(case.element).after_end(case.element.name)->0;
            next
        },
        CaseBody::Skipped(e) => {
            names_are_told_apart(e.name);
            assert(events[p + 1] == written[1]);
            assert(events[p + 2] == written[2]);
            let next = scan.after_start(case.element).after_empty(e).after_end(
                case.element.name,
            )->0;
            next
        },
        CaseBody::Problem(e) => {
            names_are_told_apart(e.name);
            assert(events[p + 1] == written[1]);
            assert(events[p + 2] == written[2]);
            let next = scan.after_start(case.element).after_empty(e).after_end(
                case.element.name,
            )->0;
            next
        },
        CaseBody::Explained(e, unescaped, raw) => {
            names_are_told_apart(e.name);
            assert(events[p + 1] == written[1]);
            assert(events[p + 2] == written[2]);
            assert(events[p + 3] == written[3]);
            assert(events[p + 4] == written[4]);
            let inner = scan.after_start(case.element).after_start(e).after_text(
                unescaped,
                raw,
            ).after_end(e.name)->0;
            let next = inner.after_end(case.element.name)->0;
            next
        },
    }
}

proof fn cases_are_read_from(
    events: Seq<XmlEventModel>,
    p: int,
    scan: JunitScanModel,
    suite: Option<Seq<char>>,
    before: Seq<PlacedCase>,
    cases: Seq<WrittenCase>,
    i: int,
    rest: Seq<XmlEventModel>,
) -> (r: (int, JunitScanModel))
    requires
        0 <= i <= cases.len(),
        0 <= p <= events.len(),
        forall|k: int| 0 <= k < cases.len() ==> (#[trigger] cases[k]).named(),
        events.skip(p) == written_cases(cases, i) + rest,
        inside(scan, seq![suite], before + placed(suite, cases.take(i))),
    ensures
        0 <= r.0 <= events.len(),
        events.skip(r.0) == rest,
        junit_from(events, p, scan) == junit_from(events, r.0, r.1),
        inside(r.1, seq![suite], before + placed(suite, cases)),
        r.1.saw_suite == scan.saw_suite,
    decreases cases.len() - i,
{
    let left = events.skip(p);
    if i < cases.len() {
        let written = cases[i].written();
        let n = written.len() as int;
        assert(events.subrange(p, p + n) =~= written) by {
            assert(left.subrange(0, n) =~= written);
        }
        let done = before + placed(suite, cases.take(i));
        let next = one_case_is_read(events, p, scan, suite, done, cases[i]);
        assert(before + placed(suite, cases.take(i + 1)) =~= done.push(
            PlacedCase { suite, case: cases[i] },
        ));
        assert(events.skip(p + n) =~= left.skip(n));
        assert(left.skip(n) =~= written_cases(cases, i + 1) + rest);
        cases_are_read_from(events, p + n, next, suite, before, cases, i + 1, rest)
    } else {
        assert(cases.take(i) =~= cases);
        assert(left =~= rest);
        (p, scan)
    }
}

proof fn suites_are_read_from(
    events: Seq<XmlEventModel>,
    p: int,
    scan: JunitScanModel,
    suites: Seq<WrittenSuite>,
    i: int,
)
    requires
        0 <= i <= suites.len(),
        0 <= p <= events.len(),
        forall|k: int| 0 <= k < suites.len() ==> (#[trigger] suites[k]).named(),
        events.skip(p) == written_suites(suites, i) + seq![XmlEventModel::Eof],
        inside(scan, seq![], placed_cases(suites.take(i))),
        scan.saw_suite == (i > 0),
    ensures
        junit_from(events, p, scan) matches Ok(end) && end.counts == counted(placed_cases(suites))
            && end.findings == shown(case_problems(placed_cases(suites))) && end.saw_suite == (
        suites.len() > 0),
    decreases suites.len() - i,
{
    let left = events.skip(p);
    assert forall|k: int| 0 <= k < left.len() implies #[trigger] left[k] == events[p + k] by {}
    if i < suites.len() {
        let suite = suites[i];
        assert(suite.named());
        let name = suite.element.attribute("name"@);
        let before = placed_cases(suites.take(i));
        let later = written_suites(suites, i + 1) + seq![XmlEventModel::Eof];
        let rest = seq![XmlEventModel::End(suite.element.name)] + later;
        names_are_told_apart(suite.element.name);
        assert(left[0] == XmlEventModel::Start(suite.element));
        assert(events[p] == left[0]);
        let opened = scan.after_start(suite.element);
        assert(junit_from(events, p, scan) == junit_from(events, p + 1, opened));
        assert(opened.suites =~= seq![name]);
        assert(events.skip(p + 1) =~= left.skip(1));
        assert(left.skip(1) =~= written_cases(suite.cases, 0) + rest);
        assert(before + placed(name, suite.cases.take(0)) =~= before);
        let (q, inner) = cases_are_read_from(
            events,
            p + 1,
            opened,
            name,
            before,
            suite.cases,
            0,
            rest,
        );
        assert(events.skip(q)[0] == XmlEventModel::End(suite.element.name));
        assert(events[q] == XmlEventModel::End(suite.element.name));
        let closed = inner.after_end(suite.element.name)->0;
        assert(closed.suites =~= seq![]);
        assert(junit_from(events, q, inner) == junit_from(events, q + 1, closed));
        assert(events.skip(q + 1) =~= events.skip(q).skip(1));
        assert(events.skip(q).skip(1) =~= later);
        assert(suites.take(i + 1).drop_last() =~= suites.take(i));
        suites_are_read_from(events, q + 1, closed, suites, i + 1);
    } else {
        assert(left[0] == XmlEventModel::Eof);
        assert(events[p] == left[0]);
        assert(suites.take(i) =~= suites);
    }
}

/// A JUnit report is read as it was written: each case of each suite is counted once, by what is
/// in it; each case that failed or erred is a diagnostic, with the name of its suite and its own;
/// and the report fails exactly where there is such a case or its process failed, and passes
/// otherwise. A report without a suite is refused.
pub proof fn written_reports_are_read(
    raw: Seq<u8>,
    success: bool,
    root: Seq<char>,
    suites: Seq<WrittenSuite>,
)
    requires
        xml::xml_document(raw) == written_suites(suites, 0) + seq![XmlEventModel::Eof],
        forall|k: int| 0 <= k < suites.len() ==> (#[trigger] suites[k]).named(),
    ensures
        suites.len() == 0 ==> pack_of(InputKind::JunitXml, raw, success, root) is Err,
        suites.len() > 0 ==> pack_of(InputKind::JunitXml, raw, success, root) is Ok,
        pack_of(InputKind::JunitXml, raw, success, root) matches Ok(pack) ==> {
            let cases = placed_cases(suites);
            let broken = exists|k: int|
                0 <= k < cases.len() && ((#[trigger] cases[k]).case.fails()
                    || cases[k].case.errs());
            &&& pack.counts == counted(cases)
            &&& reports(pack, case_problems(cases))
            &&& pack.verdict == if broken || !success {
                Verdict::Failed
            } else {
                Verdict::Passed
            }
            &&& pack.complete
        },
{
    let events = xml::xml_document(raw);
    let begin = JunitScanModel::begin();
    let none = placed_cases(suites.take(0));
    assert(none =~= seq![]);
    assert(none.filter(|c: PlacedCase| c.case.passes()) =~= seq![]
        && none.filter(|c: PlacedCase| c.case.fails()) =~= seq![]
        && none.filter(|c: PlacedCase| c.case.body is Skipped) =~= seq![]
        && none.filter(|c: PlacedCase| c.case.errs()) =~= seq![]
        && none.filter(|c: PlacedCase| c.case.fails() || c.case.errs()) =~= seq![]) by {
        reveal(Seq::filter);
    }
    nothing_is_shown();
    assert(case_problems(none) =~= seq![]);
    assert(events.skip(0) =~= events);
    suites_are_read_from(events, 0, begin, suites, 0);
    let cases = placed_cases(suites);
    let n = cases.len() as int;
    assert(cases.take(n) =~= cases);
    kept_are_there(cases, n, |c: PlacedCase| c.case.fails());
    kept_are_there(cases, n, |c: PlacedCase| c.case.errs());
}

/// The results of all the runs of a report, in their order.
pub open spec fn reported(runs: Seq<JsonModel>, i: int) -> Seq<JsonModel>
    decreases runs.len() - i,
{
    if i < 0 || i >= runs.len() {
        seq![]
    } else {
        runs[i].member_items("results"@) + reported(runs, i + 1)
    }
}

proof fn results_one_later(front: Seq<JsonModel>, results: Seq<JsonModel>, i: int, scan: SarifScanModel)
    requires
        0 <= i <= results.len(),
    ensures
        sarif_results_from(front + results, front.len() + i, scan) == sarif_results_from(
            results,
            i,
            scan,
        ),
    decreases results.len() - i,
{
    if i < results.len() {
        assert((front + results)[front.len() + i] == results[i]);
        if scan.after(results[i]) is Ok {
            results_one_later(front, results, i + 1, scan.after(results[i])->Ok_0);
        }
    }
}

proof fn results_of_two(a: Seq<JsonModel>, b: Seq<JsonModel>, i: int, scan: SarifScanModel)
    requires
        0 <= i <= a.len(),
    ensures
        sarif_results_from(a + b, i, scan) == match sarif_results_from(a, i, scan) {
            Ok(next) => sarif_results_from(b, 0, next),
            Err(error) => Err(error),
        },
    decreases a.len() - i,
{
    if i < a.len() {
        assert((a + b)[i] == a[i]);
        if scan.after(a[i]) is Ok {
            results_of_two(a, b, i + 1, scan.after(a[i])->Ok_0);
        }
    } else {
        results_one_later(a, b, 0, scan);
    }
}

proof fn runs_are_read_together(runs: Seq<JsonModel>, i: int, scan: SarifScanModel)
    requires
        0 <= i <= runs.len(),
    ensures
        sarif_runs_from(runs, i, scan) == sarif_results_from(reported(runs, i), 0, scan),
    decreases runs.len() - i,
{
    if i < runs.len() {
        let first = runs[i].member_items("results"@);
        results_of_two(first, reported(runs, i + 1), 0, scan);
        if sarif_results_from(first, 0, scan) is Ok {
            runs_are_read_together(runs, i + 1, sarif_results_from(first, 0, scan)->Ok_0);
        }
    }
}

/// A result that has a message: a text, or else a text in markdown.
pub open spec fn has_message(result: JsonModel) -> bool {
    result.member("message"@) matches Some(message) && match message.member("text"@) {
        Some(value) => value is Text,
        None => message.member("markdown"@) matches Some(value) && value is Text,
    }
}

/// The message of a result.
pub open spec fn message_of(result: JsonModel) -> Seq<char> {
    let message = result.member("message"@)->0;
    match message.member("text"@) {
        Some(value) => value->Text_0,
        None => message.member("markdown"@)->0->Text_0,
    }
}

pub open spec fn is_error(result: JsonModel) -> bool {
    result.member("level"@) == Some(JsonModel::Text("error"@))
}

pub open spec fn result_diagnostics(results: Seq<JsonModel>) -> Seq<DiagnosticModel> {
    results.map_values(|result: JsonModel| sarif_diagnostic(result, message_of(result)))
}

proof fn results_are_read_from(results: Seq<JsonModel>, i: int, scan: SarifScanModel)
    requires
        0 <= i <= results.len() <= u64::MAX,
        forall|k: int| 0 <= k < results.len() ==> has_message(#[trigger] results[k]),
        scan.failed == results.take(i).filter(|r: JsonModel| is_error(r)).len(),
        scan.findings == shown(result_diagnostics(results.take(i))),
        scan.seen == (i > 0),
    ensures
        sarif_results_from(results, i, scan) matches Ok(end) && {
            &&& end.failed == results.filter(|r: JsonModel| is_error(r)).len()
            &&& end.findings == shown(result_diagnostics(results))
            &&& end.seen == (results.len() > 0)
        },
    decreases results.len() - i,
{
    let keep = |r: JsonModel| is_error(r);
    if i < results.len() {
        let result = results[i];
        assert(has_message(result));
        one_more_kept(results, i, keep);
        kept_are_there(results, i + 1, keep);
        assert(sarif_message(result) == Some(message_of(result)));
        assert(sarif_fails(result) == is_error(result));
        let d = sarif_diagnostic(result, message_of(result));
        let before = result_diagnostics(results.take(i));
        assert(result_diagnostics(results.take(i + 1)) =~= before.push(d));
        shown_with_one_more(before, d);
        let next = scan.after(result)->Ok_0;
        results_are_read_from(results, i + 1, next);
    } else {
        assert(results.take(i) =~= results);
    }
}

proof fn a_missing_message_is_refused(results: Seq<JsonModel>, i: int, k: int, scan: SarifScanModel)
    requires
        0 <= i <= k < results.len(),
        !has_message(results[k]),
    ensures
        sarif_results_from(results, i, scan) is Err,
    decreases k - i,
{
    if i < k {
        if scan.after(results[i]) is Ok {
            a_missing_message_is_refused(results, i + 1, k, scan.after(results[i])->Ok_0);
        }
    }
}

/// A SARIF report in version 2.1.0 fails exactly where one of its results has the level of an
/// error or its process failed; it passes where it has results and none has that level, and
/// nothing is known of one without results. Every result is a diagnostic, in its order, and a
/// report with a result that has no message is refused.
pub proof fn results_decide(raw: Seq<u8>, success: bool, root: Seq<char>, runs: Seq<JsonModel>)
    requires
        json::json_document(raw) matches Ok(document) && document.member("version"@) == Some(
            JsonModel::Text("2.1.0"@),
        ) && document.member("runs"@) == Some(JsonModel::Array(runs)),
        reported(runs, 0).len() <= u64::MAX,
    ensures
        ({
            let results = reported(runs, 0);
            let pack = pack_of(InputKind::SarifJson, raw, success, root);
            &&& (exists|k: int| 0 <= k < results.len() && !has_message(#[trigger] results[k]))
                ==> pack is Err
            &&& (forall|k: int| 0 <= k < results.len() ==> has_message(#[trigger] results[k]))
                ==> pack is Ok && {
                let pack = pack->Ok_0;
                let broken = exists|k: int|
                    0 <= k < results.len() && is_error(#[trigger] results[k]);
                &&& pack.verdict == if broken || !success {
                    Verdict::Failed
                } else if results.len() > 0 {
                    Verdict::Passed
                } else {
                    Verdict::Unknown
                }
                &&& reports(pack, result_diagnostics(results))
                &&& pack.counts.failed == results.filter(|r: JsonModel| is_error(r)).len()
                &&& pack.complete == (results.len() > 0)
            }
        }),
{
    let results = reported(runs, 0);
    let begin = SarifScanModel { failed: 0, findings: FindingsModel::none(), seen: false };
    runs_are_read_together(runs, 0, begin);
    if exists|k: int| 0 <= k < results.len() && !has_message(#[trigger] results[k]) {
        let k = choose|k: int| 0 <= k < results.len() && !has_message(#[trigger] results[k]);
        a_missing_message_is_refused(results, 0, k, begin);
    }
    if forall|k: int| 0 <= k < results.len() ==> has_message(#[trigger] results[k]) {
        assert(results.take(0).filter(|r: JsonModel| is_error(r)) =~= seq![]) by {
            reveal(Seq::filter);
        }
        assert(result_diagnostics(results.take(0)) =~= seq![]);
        nothing_is_shown();
        results_are_read_from(results, 0, begin);
        kept_are_there(results, results.len() as int, |r: JsonModel| is_error(r));
        assert(results.take(results.len() as int) =~= results);
    }
}

/// The diagnostic of a result holds its rule, its message and the place of its first location.
pub proof fn results_are_located(
    result: JsonModel,
    message: Seq<char>,
    locations: Seq<JsonModel>,
    physical: JsonModel,
    artifact: JsonModel,
    region: JsonModel,
    rule: Seq<char>,
    uri: Seq<char>,
    line: json::NumberModel,
    column: json::NumberModel,
)
    requires
        result.member("ruleId"@) == Some(JsonModel::Text(rule)),
        result.member("locations"@) == Some(JsonModel::Array(locations)),
        locations.len() > 0,
        locations[0].member("physicalLocation"@) == Some(physical),
        physical.member("artifactLocation"@) == Some(artifact),
        artifact.member("uri"@) == Some(JsonModel::Text(uri)),
        physical.member("region"@) == Some(region),
        region.member("startLine"@) == Some(JsonModel::Number(line)),
        region.member("startColumn"@) == Some(JsonModel::Number(column)),
    ensures
        ({
            let d = sarif_diagnostic(result, message);
            &&& d.category == DiagnosticCategory::Sarif
            &&& d.rule_id == Some(rule)
            &&& d.message == message
            &&& d.file == Some(uri)
            &&& d.line == line.unsigned
            &&& d.column == column.unsigned
            &&& d.suite is None
            &&& d.test is None
        }),
        result.member("relatedLocations"@) == Some(JsonModel::Array(locations)) ==> ({
            let d = sarif_diagnostic(result, message);
            &&& d.related_locations.len() == locations.len()
            &&& d.related_locations[0].file == Some(uri)
            &&& d.related_locations[0].line == line.unsigned
            &&& d.related_locations[0].column == column.unsigned
        }),
{
}

/// A line that sums up a run of tests.
pub open spec fn sums_up(line: Seq<char>) -> bool {
    let rest = text::trimmed_start(line);
    tells(rest, "summary"@) && tells(rest, "test"@)
}

/// What a line that sums up says.
pub open spec fn sum_of(line: Seq<char>) -> Option<TestCountsModel> {
    summary_in(text::lowered(text::trimmed_start(line)))
}

/// The counts of the tests that the lines report one by one.
pub open spec fn seen_tests(lines: Seq<Seq<char>>) -> TestCountsModel {
    let passed = lines.filter(|line: Seq<char>| status_of(line) == "PASS"@).len();
    let failed = lines.filter(|line: Seq<char>| status_of(line) == "FAIL"@).len();
    let skipped = lines.filter(|line: Seq<char>| status_of(line) == "SKIP"@).len();
    TestCountsModel { total: passed + failed + skipped, passed, failed, skipped, errors: 0 }
}

/// The diagnostics of the lines that report a failed test or tell of a panic.
pub open spec fn broken_tests(lines: Seq<Seq<char>>) -> Seq<DiagnosticModel> {
    lines.filter(
        |line: Seq<char>|
            status_of(line) == "FAIL"@ || tells(text::trimmed_start(line), "panic"@),
    ).map_values(
        |line: Seq<char>|
            {
                let place = place_in(line);
                DiagnosticModel {
                    category: if status_of(line) == "FAIL"@ {
                        DiagnosticCategory::Failure
                    } else {
                        DiagnosticCategory::Panic
                    },
                    rule_id: None,
                    message: line,
                    file: place.file,
                    line: place.line,
                    column: place.column,
                    suite: None,
                    test: if status_of(line) == "FAIL"@ {
                        test_in(text::trimmed_start(line))
                    } else {
                        None
                    },
                    related_locations: seq![],
                }
            },
    )
}

spec fn scanned(scan: NextestScanModel, lines: Seq<Seq<char>>) -> bool {
    let sums = lines.filter(|line: Seq<char>| sums_up(line));
    &&& scan.observed == seen_tests(lines)
    &&& scan.findings == shown(broken_tests(lines))
    &&& scan.summary == if sums.len() == 0 {
        None
    } else {
        sum_of(sums.last())
    }
    &&& scan.bad_summary == exists|k: int| 0 <= k < sums.len() && sum_of(#[trigger] sums[k]) is None
}

proof fn one_line_is_scanned(lines: Seq<Seq<char>>, i: int, scan: NextestScanModel)
    requires
        0 <= i < lines.len(),
        scanned(scan, lines.take(i)),
    ensures
        scanned(scan.after(lines[i]), lines.take(i + 1)),
{
    reveal_strlit("PASS");
    reveal_strlit("FAIL");
    reveal_strlit("SKIP");
    let line = lines[i];
    let rest = text::trimmed_start(line);
    words_are_told(rest, "summary"@);
    words_are_told(rest, "test"@);
    words_are_told(rest, "panic"@);
    let pass = |line: Seq<char>| status_of(line) == "PASS"@;
    let fail = |line: Seq<char>| status_of(line) == "FAIL"@;
    let skip = |line: Seq<char>| status_of(line) == "SKIP"@;
    let sum = |line: Seq<char>| sums_up(line);
    let broken = |line: Seq<char>|
        status_of(line) == "FAIL"@ || tells(text::trimmed_start(line), "panic"@);
    one_more_kept(lines, i, pass);
    one_more_kept(lines, i, fail);
    one_more_kept(lines, i, skip);
    one_more_kept(lines, i, sum);
    one_more_kept(lines, i, broken);
    assert("PASS"@[0] == 'P');
    assert("FAIL"@[0] == 'F');
    assert("SKIP"@[0] == 'S');
    let before = broken_tests(lines.take(i));
    let after = broken_tests(lines.take(i + 1));
    let next = scan.after(line);
    if broken(line) {
        assert(after =~= before.push(after.last()));
        shown_with_one_more(before, after.last());
    } else {
        assert(after =~= before);
    }
    assert(next.findings == shown(after));
    let old_sums = lines.take(i).filter(sum);
    let sums = lines.take(i + 1).filter(sum);
    if sums_up(line) {
        assert(sums =~= old_sums.push(line));
        assert(sums.last() == line);
        if exists|k: int| 0 <= k < old_sums.len() && sum_of(#[trigger] old_sums[k]) is None {
            let k = choose|k: int|
                0 <= k < old_sums.len() && sum_of(#[trigger] old_sums[k]) is None;
            assert(sums[k] == old_sums[k]);
        }
        if sum_of(line) is None {
            assert(sum_of(sums[sums.len() - 1]) is None);
        }
        if exists|k: int| 0 <= k < sums.len() && sum_of(#[trigger] sums[k]) is None {
            let k = choose|k: int| 0 <= k < sums.len() && sum_of(#[trigger] sums[k]) is None;
            if k < old_sums.len() {
                assert(old_sums[k] == sums[k]);
            } else {
                assert(sums[k] == line);
            }
        }
    }
    assert(next.observed == seen_tests(lines.take(i + 1)));
}

proof fn lines_are_scanned_from(lines: Seq<Seq<char>>, i: int, scan: NextestScanModel)
    requires
        0 <= i <= lines.len(),
        scanned(scan, lines.take(i)),
    ensures
        nextest_from(lines, i, scan) matches Some(end) ==> scanned(end, lines),
    decreases lines.len() - i,
{
    if i < lines.len() {
        one_line_is_scanned(lines, i, scan);
        lines_are_scanned_from(lines, i + 1, scan.after(lines[i]));
    } else {
        assert(lines.take(i) =~= lines);
    }
}

/// The output of a test run is decided by the line that sums it up, where there is one that can
/// be read and nothing speaks against it: it fails where a failure or an error is counted there,
/// and passes otherwise. Without such a line it fails where a test failed, and nothing is known
/// where none did. Where a summary cannot be read or does not agree with the tests that were
/// reported one by one, nothing is known.
pub proof fn summaries_decide(raw: Seq<u8>, success: bool, root: Seq<char>)
    ensures
        pack_of(InputKind::NextestText, raw, success, root) matches Ok(pack) ==> {
            let lines = text::lines_of(text::utf8_lossy(raw));
            let sums = lines.filter(|line: Seq<char>| sums_up(line));
            let seen = seen_tests(lines);
            let unread = exists|k: int| 0 <= k < sums.len() && sum_of(#[trigger] sums[k]) is None;
            &&& reports(pack, broken_tests(lines))
            &&& sums.len() == 0 ==> {
                &&& pack.counts == seen
                &&& pack.verdict == if seen.failed > 0 || !success {
                    Verdict::Failed
                } else {
                    Verdict::Unknown
                }
                &&& !pack.complete
            }
            &&& sums.len() > 0 && !unread && (seen.total == 0 || sum_of(sums.last()) == Some(
                seen,
            )) ==> {
                let counts = sum_of(sums.last())->0;
                &&& pack.counts == counts
                &&& pack.verdict == if counts.failed + counts.errors > 0 || !success {
                    Verdict::Failed
                } else {
                    Verdict::Passed
                }
                &&& pack.complete
            }
            &&& unread || (sums.len() > 0 && seen.total > 0 && sum_of(sums.last()) != Some(seen))
                ==> {
                &&& pack.counts == seen
                &&& pack.verdict == if success {
                    Verdict::Unknown
                } else {
                    Verdict::Failed
                }
                &&& !pack.complete
            }
        },
{
    let lines = text::lines_of(text::utf8_lossy(raw));
    let none = lines.take(0);
    assert(none =~= seq![]);
    assert(none.filter(|line: Seq<char>| status_of(line) == "PASS"@) =~= seq![]
        && none.filter(|line: Seq<char>| status_of(line) == "FAIL"@) =~= seq![]
        && none.filter(|line: Seq<char>| status_of(line) == "SKIP"@) =~= seq![]
        && none.filter(|line: Seq<char>| sums_up(line)) =~= seq![]
        && none.filter(
        |line: Seq<char>|
            status_of(line) == "FAIL"@ || tells(text::trimmed_start(line), "panic"@),
    ) =~= seq![]) by {
        reveal(Seq::filter);
    }
    nothing_is_shown();
    assert(broken_tests(none) =~= seq![]);
    lines_are_scanned_from(lines, 0, NextestScanModel::begin());
    let sums = lines.filter(|line: Seq<char>| sums_up(line));
    if sums.len() > 0 {
        assert(sums.last() == sums[sums.len() - 1]);
    }
}

/// The status of a line is its first word, without a colon behind it.
pub proof fn statuses_are_read(space: Seq<char>, status: Seq<char>, colons: nat, rest: Seq<char>)
    requires
        forall|k: int| 0 <= k < space.len() ==> text::white_space(#[trigger] space[k]),
        forall|k: int| 0 <= k < status.len() ==> !text::white_space(#[trigger] status[k]),
        status.len() > 0,
        status.last() != ':',
        rest.len() > 0,
        !text::white_space(rest.last()),
    ensures
        status_of(space + (status + Seq::new(colons, |i: int| ':') + seq![' '] + rest)) == status,
{
    let word = status + Seq::new(colons, |i: int| ':');
    let inner = word + seq![' '] + rest;
    text::laws::surrounding_space_is_trimmed(space, inner, seq![]);
    assert(inner[0] == status[0]);
    assert(inner.last() == rest.last());
    assert(space + inner + seq![] =~= space + inner);
    assert(inner + seq![] =~= inner);
    assert forall|k: int| 0 <= k < word.len() implies !text::white_space(#[trigger] word[k]) by {
        if k < status.len() {
            assert(word[k] == status[k]);
        } else {
            assert(word[k] == ':');
        }
    }
    text::laws::words_are_read(word, ' ', rest);
    text::laws::trailing_chars_are_dropped(status, ':', colons);
}

/// The name of the test in a line is what stands behind the last bracket.
pub proof fn tests_are_named(front: Seq<char>, name: Seq<char>)
    requires
        name.len() > 0,
        !text::white_space(name[0]),
        !text::white_space(name.last()),
        !name.contains(']'),
    ensures
        test_in(front + seq![']', ' '] + name) == Some(name),
{
    let line = front + seq![']', ' '] + name;
    let n = front.len() as int;
    reveal_strlit("]");
    text::laws::parts_are_found(line, "]"@);
    assert(line.subrange(n, n + 1) =~= "]"@);
    assert(text::occurs_at(line, "]"@, n));
    assert forall|j: int| n < j implies !text::occurs_at(line, "]"@, j) by {
        if text::occurs_at(line, "]"@, j) {
            assert(line.subrange(j, j + 1)[0] == line[j]);
            if j > n + 1 {
                assert(name[j - n - 2] == line[j]);
                assert(name.contains(']'));
            } else {
                assert(line[n + 1] == ' ');
            }
        }
    }
    assert(text::last_found(line, "]"@) == Some(n));
    assert(line.subrange(n + 1, line.len() as int) =~= seq![' '] + name);
    text::laws::surrounding_space_is_trimmed(seq![' '], name, seq![]);
    assert(seq![' '] + name + seq![] =~= seq![' '] + name);
}

/// The words that count tests in a summary.
pub open spec fn counting_word(word: Seq<char>) -> bool {
    word == "passed"@ || word == "failed"@ || word == "skipped"@ || word == "error"@ || word
        == "errors"@
}

proof fn other_words_are_passed_over(words: Seq<Seq<char>>, i: int, n: int)
    requires
        0 <= i <= n < words.len(),
        forall|k: int| i <= k < n ==> !counting_word(#[trigger] words[k + 1]),
    ensures
        summary_from(words, i, TestCountsModel::zero(), false) == summary_from(
            words,
            n,
            TestCountsModel::zero(),
            false,
        ),
    decreases n - i,
{
    if i < n {
        assert(!counting_word(words[i + 1]));
        other_words_are_passed_over(words, i + 1, n);
    }
}

/// A summary gives each number that stands in front of a counting word, and their sum is the
/// number of tests.
pub proof fn summaries_are_read(
    lower: Seq<char>,
    front: Seq<Seq<char>>,
    passed: u64,
    failed: u64,
    skipped: u64,
)
    requires
        text::runs_of(lower) == front + seq![
            text::decimal(passed as nat),
            "passed"@,
            text::decimal(failed as nat),
            "failed"@,
            text::decimal(skipped as nat),
            "skipped"@,
        ],
        forall|k: int| 0 <= k < front.len() ==> !counting_word(#[trigger] front[k]),
    ensures
        summary_in(lower) == Some(
            TestCountsModel {
                total: (passed + failed + skipped) as nat,
                passed: passed as nat,
                failed: failed as nat,
                skipped: skipped as nat,
                errors: 0,
            },
        ),
{
    reveal_strlit("passed");
    reveal_strlit("failed");
    reveal_strlit("skipped");
    reveal_strlit("error");
    reveal_strlit("errors");
    let words = text::runs_of(lower);
    let n = front.len() as int;
    text::laws::written_numbers_are_read(passed as nat);
    text::laws::written_numbers_are_read(failed as nat);
    text::laws::written_numbers_are_read(skipped as nat);
    assert("passed"@[0] == 'p' && "failed"@[0] == 'f' && "skipped"@[0] == 's' && "error"@[0] == 'e'
        && "errors"@[0] == 'e');
    assert(text::ascii_digit(text::decimal(passed as nat)[0]));
    assert(text::ascii_digit(text::decimal(failed as nat)[0]));
    assert(text::ascii_digit(text::decimal(skipped as nat)[0]));
    assert forall|k: int| 0 <= k < n implies !counting_word(#[trigger] words[k + 1]) by {
        if k + 1 < n {
            assert(words[k + 1] == front[k + 1]);
        } else {
            assert(words[k + 1] == text::decimal(passed as nat));
        }
    }
    other_words_are_passed_over(words, 0, n);
    assert(words[n] == text::decimal(passed as nat));
    assert(words[n + 1] == "passed"@);
    assert(words[n + 2] == text::decimal(failed as nat));
    assert(words[n + 3] == "failed"@);
    assert(words[n + 4] == text::decimal(skipped as nat));
    assert(words[n + 5] == "skipped"@);
    assert(text::number_of("passed"@) is None);
    assert(text::number_of("failed"@) is None);
    reveal_with_fuel(summary_from, 7);
}

/// A pack names the raw output by its digest and says how long it is.
pub proof fn raw_output_is_named_by_its_digest(
    kind: InputKind,
    raw: Seq<u8>,
    success: bool,
    root: Seq<char>,
)
    ensures
        pack_of(kind, raw, success, root) matches Ok(pack) ==> {
            let record = pack.raw_artifact;
            &&& pack.kind == kind
            &&& record.sha256 == digest::sha256_hex(raw)
            &&& record.bytes == raw.len()
            &&& path::platform(path::joined(root, "sha256"@)) == Platform::Posix ==> text::finishes(
                record.path,
                digest::sha256_hex(raw) + ".raw"@,
            )
        },
{
    reveal_strlit(".raw");
    let name = digest::sha256_hex(raw) + ".raw"@;
    digest::hex_holds_digits(digest::sha256(raw));
    assert(name[0] != '/') by {
        if digest::sha256_hex(raw).len() > 0 {
            assert(name[0] == digest::sha256_hex(raw)[0]);
        } else {
            assert(name[0] == ".raw"@[0]);
        }
    }
    let place = path::joined(path::joined(root, "sha256"@), name);
    if path::platform(path::joined(root, "sha256"@)) == Platform::Posix {
        assert(place.subrange(place.len() - name.len(), place.len() as int) =~= name);
    }
}

} // verus!
