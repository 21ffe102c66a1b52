//! Bounded normalization of test and tool output.

pub mod laws;

use vstd::prelude::*;
use crate::digest;
use crate::json;
use crate::json::Json;
use crate::list;
use crate::path;
use crate::text;
use crate::xml;
use crate::xml::{XmlElement, XmlEvent};

verus! {

pub const MAX_DIAGNOSTICS: usize = 32;

pub const MAX_MESSAGE_CHARS: usize = 512;

#[derive(Clone, Copy, Debug, PartialEq, Eq, Structural)]
pub enum InputKind {
    JunitXml,
    SarifJson,
    GenericText,
    NextestText,
}

#[derive(Clone, Copy, Debug, PartialEq, Eq, Structural)]
pub enum Verdict {
    Passed,
    Failed,
    Unknown,
}

#[derive(Clone, Copy, Debug, PartialEq, Eq, Structural)]
pub enum DiagnosticCategory {
    Failure,
    Error,
    Panic,
    Sarif,
    Log,
}

#[derive(Clone, Copy, Debug, PartialEq, Eq, Structural)]
pub struct TestCounts {
    pub total: u64,
    pub passed: u64,
    pub failed: u64,
    pub skipped: u64,
    pub errors: u64,
}

/// What a `TestCounts` says.
pub struct TestCountsModel {
    pub total: nat,
    pub passed: nat,
    pub failed: nat,
    pub skipped: nat,
    pub errors: nat,
}

impl DeepView for TestCounts {
    type V = TestCountsModel;

    open spec fn deep_view(&self) -> TestCountsModel {
        TestCountsModel {
            total: self.total as nat,
            passed: self.passed as nat,
            failed: self.failed as nat,
            skipped: self.skipped as nat,
            errors: self.errors as nat,
        }
    }
}

#[derive(Clone, Debug, PartialEq, Eq)]
pub struct SourceLocation {
    pub file: Option<String>,
    pub line: Option<u64>,
    pub column: Option<u64>,
}

/// What a `SourceLocation` says.
pub struct SourceLocationModel {
    pub file: Option<Seq<char>>,
    pub line: Option<u64>,
    pub column: Option<u64>,
}

impl DeepView for SourceLocation {
    type V = SourceLocationModel;

    open spec fn deep_view(&self) -> SourceLocationModel {
        SourceLocationModel {
            file: self.file.deep_view(),
            line: self.line,
            column: self.column,
        }
    }
}

#[derive(Clone, Debug, PartialEq, Eq)]
pub struct Diagnostic {
    pub category: DiagnosticCategory,
    pub rule_id: Option<String>,
    pub message: String,
    pub file: Option<String>,
    pub line: Option<u64>,
    pub column: Option<u64>,
    pub suite: Option<String>,
    pub test: Option<String>,
    pub related_locations: Vec<SourceLocation>,
}

/// What a `Diagnostic` says.
pub struct DiagnosticModel {
    pub category: DiagnosticCategory,
    pub rule_id: Option<Seq<char>>,
    pub message: Seq<char>,
    pub file: Option<Seq<char>>,
    pub line: Option<u64>,
    pub column: Option<u64>,
    pub suite: Option<Seq<char>>,
    pub test: Option<Seq<char>>,
    pub related_locations: Seq<SourceLocationModel>,
}

impl DeepView for Diagnostic {
    type V = DiagnosticModel;

    open spec fn deep_view(&self) -> DiagnosticModel {
        DiagnosticModel {
            category: self.category,
            rule_id: self.rule_id.deep_view(),
            message: self.message@,
            file: self.file.deep_view(),
            line: self.line,
            column: self.column,
            suite: self.suite.deep_view(),
            test: self.test.deep_view(),
            related_locations: self.related_locations.deep_view(),
        }
    }
}

#[derive(Clone, Debug, PartialEq, Eq)]
pub struct Omission {
    pub count: u64,
    pub reason: String,
}

/// What a `Omission` says.
pub struct OmissionModel {
    pub count: nat,
    pub reason: Seq<char>,
}

impl DeepView for Omission {
    type V = OmissionModel;

    open spec fn deep_view(&self) -> OmissionModel {
        OmissionModel {
            count: self.count as nat,
            reason: self.reason@,
        }
    }
}

/// Where the raw output is kept, and how to tell that it is unchanged.
#[derive(Clone, Debug, PartialEq, Eq)]
pub struct RawArtifactRecord {
    pub sha256: String,
    pub path: String,
    pub bytes: u64,
}

/// What a `RawArtifactRecord` says.
pub struct RawArtifactRecordModel {
    pub sha256: Seq<char>,
    pub path: Seq<char>,
    pub bytes: nat,
}

impl DeepView for RawArtifactRecord {
    type V = RawArtifactRecordModel;

    open spec fn deep_view(&self) -> RawArtifactRecordModel {
        RawArtifactRecordModel {
            sha256: self.sha256@,
            path: self.path@,
            bytes: self.bytes as nat,
        }
    }
}

#[derive(Clone, Debug, PartialEq, Eq)]
pub struct LogPack {
    pub operation: String,
    pub kind: InputKind,
    pub verdict: Verdict,
    pub diagnostics: Vec<Diagnostic>,
    pub counts: TestCounts,
    pub omitted: Option<Omission>,
    pub complete: bool,
    pub raw_artifact: RawArtifactRecord,
}

/// What a `LogPack` says.
pub struct LogPackModel {
    pub operation: Seq<char>,
    pub kind: InputKind,
    pub verdict: Verdict,
    pub diagnostics: Seq<DiagnosticModel>,
    pub counts: TestCountsModel,
    pub omitted: Option<OmissionModel>,
    pub complete: bool,
    pub raw_artifact: RawArtifactRecordModel,
}

impl DeepView for LogPack {
    type V = LogPackModel;

    open spec fn deep_view(&self) -> LogPackModel {
        LogPackModel {
            operation: self.operation@,
            kind: self.kind,
            verdict: self.verdict,
            diagnostics: self.diagnostics.deep_view(),
            counts: self.counts.deep_view(),
            omitted: self.omitted.deep_view(),
            complete: self.complete,
            raw_artifact: self.raw_artifact.deep_view(),
        }
    }
}

impl LogPack {
    pub fn raw_artifact(&self) -> (r: &RawArtifactRecord)
        ensures
            *r == self.raw_artifact,
    {
        &self.raw_artifact
    }
}

#[derive(Clone, Debug, PartialEq, Eq)]
pub enum NormalizeError {
    JunitXml(String),
    SarifJson(String),
    InvalidSarif(String),
    /// The counts of the report do not fit in 64 bits.
    CountOverflow,
}

pub enum NormalizeErrorModel {
    JunitXml(Seq<char>),
    SarifJson(Seq<char>),
    InvalidSarif(Seq<char>),
    CountOverflow,
}

impl DeepView for NormalizeError {
    type V = NormalizeErrorModel;

    open spec fn deep_view(&self) -> NormalizeErrorModel {
        match self {
            NormalizeError::JunitXml(e) => NormalizeErrorModel::JunitXml(e@),
            NormalizeError::SarifJson(e) => NormalizeErrorModel::SarifJson(e@),
            NormalizeError::InvalidSarif(e) => NormalizeErrorModel::InvalidSarif(e@),
            NormalizeError::CountOverflow => NormalizeErrorModel::CountOverflow,
        }
    }
}

impl NormalizeErrorModel {
    pub open spec fn message(self) -> Seq<char> {
        match self {
            NormalizeErrorModel::JunitXml(e) => "invalid JUnit XML: "@ + e,
            NormalizeErrorModel::SarifJson(e) => "invalid SARIF JSON: "@ + e,
            NormalizeErrorModel::InvalidSarif(e) => "invalid SARIF 2.1.0: "@ + e,
            NormalizeErrorModel::CountOverflow => "counts do not fit in 64 bits"@,
        }
    }
}

impl NormalizeError {
    /// The error as a sentence for a person.
    pub fn message(&self) -> (r: String)
        ensures
            r@ == self.deep_view().message(),
    {
        match self {
            NormalizeError::JunitXml(e) => text::concat("invalid JUnit XML: ", e.as_str()),
            NormalizeError::SarifJson(e) => text::concat("invalid SARIF JSON: ", e.as_str()),
            NormalizeError::InvalidSarif(e) => text::concat("invalid SARIF 2.1.0: ", e.as_str()),
            NormalizeError::CountOverflow => text::copy("counts do not fit in 64 bits"),
        }
    }
}

impl TestCountsModel {
    pub open spec fn zero() -> TestCountsModel {
        TestCountsModel { total: 0, passed: 0, failed: 0, skipped: 0, errors: 0 }
    }
}

impl Default for TestCounts {
    fn default() -> (r: TestCounts)
        ensures
            r.deep_view() == TestCountsModel::zero(),
    {
        TestCounts { total: 0, passed: 0, failed: 0, skipped: 0, errors: 0 }
    }
}

impl Default for SourceLocation {
    fn default() -> (r: SourceLocation)
        ensures
            r.deep_view() == (SourceLocationModel { file: None, line: None, column: None }),
    {
        SourceLocation { file: None, line: None, column: None }
    }
}

/// The first `max` characters, and three dots where there were more.
pub open spec fn truncated(value: Seq<char>, max: nat) -> Seq<char> {
    if value.len() <= max {
        value
    } else {
        value.take(max as int) + "..."@
    }
}

/// The diagnostics that were kept, and how many more there were.
#[derive(Debug, PartialEq, Eq)]
pub struct Findings {
    pub diagnostics: Vec<Diagnostic>,
    pub omitted: u64,
}

pub struct FindingsModel {
    pub diagnostics: Seq<DiagnosticModel>,
    pub omitted: nat,
}

impl DeepView for Findings {
    type V = FindingsModel;

    open spec fn deep_view(&self) -> FindingsModel {
        FindingsModel { diagnostics: self.diagnostics.deep_view(), omitted: self.omitted as nat }
    }
}

impl FindingsModel {
    pub open spec fn none() -> FindingsModel {
        FindingsModel { diagnostics: seq![], omitted: 0 }
    }

    /// With one more diagnostic, its message cut to the limit. Behind the limit
    /// on their number diagnostics are only counted.
    pub open spec fn with(self, d: DiagnosticModel) -> FindingsModel {
        if self.diagnostics.len() < MAX_DIAGNOSTICS {
            FindingsModel {
                diagnostics: self.diagnostics.push(
                    DiagnosticModel {
                        message: truncated(d.message, MAX_MESSAGE_CHARS as nat),
                        ..d
                    },
                ),
                ..self
            }
        } else {
            FindingsModel { omitted: self.omitted + 1, ..self }
        }
    }

    /// What a pack says of the diagnostics that were left out.
    pub open spec fn omission(self) -> Option<OmissionModel> {
        if self.omitted == 0 {
            None
        } else {
            Some(
                OmissionModel { count: self.omitted, reason: "diagnostic limit exceeded"@ },
            )
        }
    }
}

/// What a report says, before it is put into a pack.
#[derive(Debug, PartialEq, Eq)]
pub struct Outcome {
    pub verdict: Verdict,
    pub findings: Findings,
    pub counts: TestCounts,
    pub complete: bool,
}

pub struct OutcomeModel {
    pub verdict: Verdict,
    pub findings: FindingsModel,
    pub counts: TestCountsModel,
    pub complete: bool,
}

impl DeepView for Outcome {
    type V = OutcomeModel;

    open spec fn deep_view(&self) -> OutcomeModel {
        OutcomeModel {
            verdict: self.verdict,
            findings: self.findings.deep_view(),
            counts: self.counts.deep_view(),
            complete: self.complete,
        }
    }
}

fn truncate(value: &str, max: usize) -> (r: String)
    ensures
        r@ == truncated(value@, max as nat),
{
    let chars = text::to_chars(value);
    if chars.len() <= max {
        return text::copy(value);
    }
    let mut out: Vec<char> = Vec::new();
    text::append(&mut out, vstd::slice::slice_subrange(chars.as_slice(), 0, max));
    text::append(&mut out, text::to_chars("...").as_slice());
    assert(out@ =~= truncated(value@, max as nat));
    text::to_text(out.as_slice())
}

impl Findings {
    pub fn new() -> (r: Findings)
        ensures
            r.deep_view() == FindingsModel::none(),
    {
        let r = Findings { diagnostics: Vec::new(), omitted: 0 };
        assert(r.deep_view().diagnostics =~= Seq::empty());
        r
    }

    /// Adds a diagnostic, within the limits.
    pub fn push_diag(&mut self, d: Diagnostic)
        requires
            old(self).deep_view().diagnostics.len() < MAX_DIAGNOSTICS || old(self).omitted
                < u64::MAX,
        ensures
            final(self).deep_view() == old(self).deep_view().with(d.deep_view()),
    {
        if self.diagnostics.len() < MAX_DIAGNOSTICS {
            let mut d = d;
            d.message = truncate(d.message.as_str(), MAX_MESSAGE_CHARS);
            list::push(&mut self.diagnostics, d);
        } else {
            self.omitted = self.omitted + 1;
        }
    }
}

#[derive(Debug, Clone, Copy, PartialEq, Eq, Structural)]
pub enum CaseOutcome {
    Passed,
    Skipped,
    Failure,
    Error,
}

/// The test case that has been opened and not closed.
#[derive(Debug, PartialEq, Eq)]
pub struct OpenCase {
    pub suite: Option<String>,
    pub test: Option<String>,
    pub outcome: CaseOutcome,
}

pub struct OpenCaseModel {
    pub suite: Option<Seq<char>>,
    pub test: Option<Seq<char>>,
    pub outcome: CaseOutcome,
}

impl DeepView for OpenCase {
    type V = OpenCaseModel;

    open spec fn deep_view(&self) -> OpenCaseModel {
        OpenCaseModel {
            suite: self.suite.deep_view(),
            test: self.test.deep_view(),
            outcome: self.outcome,
        }
    }
}

/// What has been read of a JUnit report.
#[derive(Debug, PartialEq, Eq)]
pub struct JunitScan {
    pub counts: TestCounts,
    pub findings: Findings,
    /// The names of the suites that are open.
    pub suites: Vec<Option<String>>,
    pub current: Option<OpenCase>,
    /// The failure or error that is open.
    pub pending: Option<Diagnostic>,
    pub open_elements: u64,
    pub saw_suite: bool,
}

pub struct JunitScanModel {
    pub counts: TestCountsModel,
    pub findings: FindingsModel,
    pub suites: Seq<Option<Seq<char>>>,
    pub current: Option<OpenCaseModel>,
    pub pending: Option<DiagnosticModel>,
    pub open_elements: nat,
    pub saw_suite: bool,
}

impl DeepView for JunitScan {
    type V = JunitScanModel;

    open spec fn deep_view(&self) -> JunitScanModel {
        JunitScanModel {
            counts: self.counts.deep_view(),
            findings: self.findings.deep_view(),
            suites: self.suites.deep_view(),
            current: self.current.deep_view(),
            pending: self.pending.deep_view(),
            open_elements: self.open_elements as nat,
            saw_suite: self.saw_suite,
        }
    }
}

/// The number that an attribute writes.
pub open spec fn attribute_number(
    e: xml::XmlElementModel,
    name: Seq<char>,
) -> Option<u64> {
    match e.attribute(name) {
        Some(value) => text::number_of(value),
        None => None,
    }
}

pub open spec fn is_problem(name: Seq<u8>) -> bool {
    xml::spells(name, "failure"@) || xml::spells(name, "error"@)
}

/// The diagnostic that a failure or error element of a test case opens.
pub open spec fn problem_of(e: xml::XmlElementModel, case: OpenCaseModel) -> DiagnosticModel {
    DiagnosticModel {
        category: if xml::spells(e.name, "error"@) {
            DiagnosticCategory::Error
        } else {
            DiagnosticCategory::Failure
        },
        rule_id: None,
        message: match e.attribute("message"@) {
            Some(message) => message,
            None => seq![],
        },
        file: e.attribute("file"@),
        line: attribute_number(e, "line"@),
        column: attribute_number(e, "column"@),
        suite: case.suite,
        test: case.test,
        related_locations: seq![],
    }
}

/// A test case with a failure or an error; an error outweighs a failure.
pub open spec fn case_with_problem(case: OpenCaseModel, name: Seq<u8>) -> OpenCaseModel {
    OpenCaseModel {
        outcome: if xml::spells(name, "error"@) || case.outcome == CaseOutcome::Error {
            CaseOutcome::Error
        } else {
            CaseOutcome::Failure
        },
        ..case
    }
}

/// A skipped test case, unless it has another outcome already.
pub open spec fn case_skipped(case: OpenCaseModel) -> OpenCaseModel {
    OpenCaseModel {
        outcome: if case.outcome == CaseOutcome::Passed {
            CaseOutcome::Skipped
        } else {
            case.outcome
        },
        ..case
    }
}

impl JunitScanModel {
    pub open spec fn begin() -> JunitScanModel {
        JunitScanModel {
            counts: TestCountsModel::zero(),
            findings: FindingsModel::none(),
            suites: seq![],
            current: None,
            pending: None,
            open_elements: 0,
            saw_suite: false,
        }
    }

    pub open spec fn after_skipped(self) -> JunitScanModel {
        JunitScanModel {
            current: match self.current {
                Some(case) => Some(case_skipped(case)),
                None => None,
            },
            ..self
        }
    }

    /// After an opening tag.
    pub open spec fn after_start(self, e: xml::XmlElementModel) -> JunitScanModel {
        let next = JunitScanModel { open_elements: self.open_elements + 1, ..self };
        if xml::spells(e.name, "testsuite"@) {
            JunitScanModel {
                saw_suite: true,
                suites: next.suites.push(e.attribute("name"@)),
                ..next
            }
        } else if xml::spells(e.name, "testcase"@) {
            JunitScanModel {
                counts: TestCountsModel { total: next.counts.total + 1, ..next.counts },
                current: Some(
                    OpenCaseModel {
                        suite: if next.suites.len() > 0 {
                            next.suites.last()
                        } else {
                            None
                        },
                        test: e.attribute("name"@),
                        outcome: CaseOutcome::Passed,
                    },
                ),
                ..next
            }
        } else if is_problem(e.name) {
            match next.current {
                Some(case) => JunitScanModel {
                    current: Some(case_with_problem(case, e.name)),
                    pending: Some(problem_of(e, case)),
                    ..next
                },
                None => next,
            }
        } else if xml::spells(e.name, "skipped"@) {
            next.after_skipped()
        } else {
            next
        }
    }

    /// After an element without content.
    pub open spec fn after_empty(self, e: xml::XmlElementModel) -> JunitScanModel {
        if xml::spells(e.name, "testsuite"@) {
            JunitScanModel { saw_suite: true, ..self }
        } else if xml::spells(e.name, "testcase"@) {
            JunitScanModel {
                counts: TestCountsModel {
                    total: self.counts.total + 1,
                    passed: self.counts.passed + 1,
                    ..self.counts
                },
                ..self
            }
        } else if is_problem(e.name) {
            match self.current {
                Some(case) => JunitScanModel {
                    current: Some(case_with_problem(case, e.name)),
                    findings: self.findings.with(problem_of(e, case)),
                    ..self
                },
                None => self,
            }
        } else if xml::spells(e.name, "skipped"@) {
            self.after_skipped()
        } else {
            self
        }
    }

    /// After text: it is the message of an open problem that has none.
    pub open spec fn after_text(self, unescaped: Option<Seq<char>>, raw: Seq<u8>) -> JunitScanModel {
        match self.pending {
            Some(d) => if d.message.len() == 0 {
                JunitScanModel {
                    pending: Some(
                        DiagnosticModel {
                            message: match unescaped {
                                Some(text) => text,
                                None => text::utf8_lossy(raw),
                            },
                            ..d
                        },
                    ),
                    ..self
                }
            } else {
                self
            },
            None => self,
        }
    }

    /// The outcome of the open test case is counted.
    pub open spec fn after_case(self) -> JunitScanModel {
        match self.current {
            Some(case) => JunitScanModel {
                current: None,
                counts: match case.outcome {
                    CaseOutcome::Passed => TestCountsModel {
                        passed: self.counts.passed + 1,
                        ..self.counts
                    },
                    CaseOutcome::Skipped => TestCountsModel {
                        skipped: self.counts.skipped + 1,
                        ..self.counts
                    },
                    CaseOutcome::Failure => TestCountsModel {
                        failed: self.counts.failed + 1,
                        ..self.counts
                    },
                    CaseOutcome::Error => TestCountsModel {
                        errors: self.counts.errors + 1,
                        ..self.counts
                    },
                },
                ..self
            },
            None => self,
        }
    }

    /// After a closing tag; `None` where nothing was open.
    pub open spec fn after_end(self, name: Seq<u8>) -> Option<JunitScanModel> {
        if self.open_elements == 0 {
            None
        } else {
            let next = JunitScanModel { open_elements: (self.open_elements - 1) as nat, ..self };
            Some(
                if xml::spells(name, "testsuite"@) {
                    JunitScanModel {
                        suites: if next.suites.len() > 0 {
                            next.suites.drop_last()
                        } else {
                            next.suites
                        },
                        ..next
                    }
                } else if is_problem(name) {
                    match next.pending {
                        Some(d) => JunitScanModel {
                            pending: None,
                            findings: next.findings.with(d),
                            ..next
                        },
                        None => next,
                    }
                } else if xml::spells(name, "testcase"@) {
                    next.after_case()
                } else {
                    next
                },
            )
        }
    }

    /// Counters leave room for `n` more events, and no test case is counted twice.
    pub open spec fn roomy(self, n: int) -> bool {
        &&& self.open_elements + n <= u64::MAX
        &&& self.counts.total + n <= u64::MAX
        &&& self.findings.omitted + n <= u64::MAX
        &&& self.counts.passed + self.counts.failed + self.counts.skipped + self.counts.errors + (
        if self.current is Some {
            1int
        } else {
            0int
        }) <= self.counts.total
    }
}

/// What a JUnit report says from event `i` on.
pub open spec fn junit_from(
    events: Seq<xml::XmlEventModel>,
    i: int,
    scan: JunitScanModel,
) -> Result<JunitScanModel, NormalizeErrorModel>
    decreases events.len() - i,
{
    if i < 0 || i >= events.len() {
        Ok(scan)
    } else {
        match events[i] {
            xml::XmlEventModel::Start(e) => junit_from(events, i + 1, scan.after_start(e)),
            xml::XmlEventModel::Empty(e) => junit_from(events, i + 1, scan.after_empty(e)),
            xml::XmlEventModel::Text(unescaped, raw) => junit_from(
                events,
                i + 1,
                scan.after_text(unescaped, raw),
            ),
            xml::XmlEventModel::End(name) => match scan.after_end(name) {
                Some(next) => junit_from(events, i + 1, next),
                None => Err(NormalizeErrorModel::JunitXml("unexpected closing element"@)),
            },
            xml::XmlEventModel::Other => junit_from(events, i + 1, scan),
            xml::XmlEventModel::Eof => if scan.open_elements != 0 {
                Err(NormalizeErrorModel::JunitXml("unexpected end of file"@))
            } else {
                Ok(scan)
            },
            xml::XmlEventModel::Failed(message) => Err(NormalizeErrorModel::JunitXml(message)),
        }
    }
}

/// What a JUnit report says.
pub open spec fn junit_outcome(events: Seq<xml::XmlEventModel>) -> Result<
    OutcomeModel,
    NormalizeErrorModel,
> {
    match junit_from(events, 0, JunitScanModel::begin()) {
        Ok(scan) => if scan.saw_suite {
            Ok(
                OutcomeModel {
                    verdict: if scan.counts.failed + scan.counts.errors > 0 {
                        Verdict::Failed
                    } else {
                        Verdict::Passed
                    },
                    findings: scan.findings,
                    counts: scan.counts,
                    complete: true,
                },
            )
        } else {
            Err(NormalizeErrorModel::JunitXml("expected a testsuite element"@))
        },
        Err(error) => Err(error),
    }
}

/// The result of a function that can fail, by what it says.
pub open spec fn outcome_of(r: Result<Outcome, NormalizeError>) -> Result<
    OutcomeModel,
    NormalizeErrorModel,
> {
    match r {
        Ok(outcome) => Ok(outcome.deep_view()),
        Err(error) => Err(error.deep_view()),
    }
}

fn number(e: &XmlElement, name: &str) -> (r: Option<u64>)
    ensures
        r == attribute_number(e.deep_view(), name@),
{
    match e.attribute(name) {
        Some(value) => text::parse_number(text::to_chars(value.as_str()).as_slice()),
        None => None,
    }
}

fn is_problem_name(name: &Vec<u8>) -> (r: bool)
    ensures
        r == is_problem(name@),
{
    xml::is_name(name, "failure") || xml::is_name(name, "error")
}

impl OpenCase {
    /// The diagnostic that a failure or error element opens, and the new outcome.
    fn problem(&mut self, e: &XmlElement) -> (r: Diagnostic)
        ensures
            r.deep_view() == problem_of(e.deep_view(), old(self).deep_view()),
            final(self).deep_view() == case_with_problem(old(self).deep_view(), e.name@),
    {
        let error = xml::is_name(&e.name, "error");
        let category = if error {
            self.outcome = CaseOutcome::Error;
            DiagnosticCategory::Error
        } else {
            if self.outcome != CaseOutcome::Error {
                self.outcome = CaseOutcome::Failure;
            }
            DiagnosticCategory::Failure
        };
        let message = match e.attribute("message") {
            Some(message) => message,
            None => String::new(),
        };
        let related_locations: Vec<SourceLocation> = Vec::new();
        assert(related_locations.deep_view() =~= Seq::empty());
        Diagnostic {
            category,
            rule_id: None,
            message,
            file: e.attribute("file"),
            line: number(e, "line"),
            column: number(e, "column"),
            suite: text::copy_option(&self.suite),
            test: text::copy_option(&self.test),
            related_locations,
        }
    }
}

impl JunitScan {
    pub fn new() -> (r: JunitScan)
        ensures
            r.deep_view() == JunitScanModel::begin(),
    {
        let r = JunitScan {
            counts: TestCounts::default(),
            findings: Findings::new(),
            suites: Vec::new(),
            current: None,
            pending: None,
            open_elements: 0,
            saw_suite: false,
        };
        assert(r.deep_view().suites =~= Seq::empty());
        r
    }

    fn skipped(&mut self)
        ensures
            final(self).deep_view() == old(self).deep_view().after_skipped(),
    {
        match self.current.take() {
            Some(case) => {
                let mut case = case;
                if case.outcome == CaseOutcome::Passed {
                    case.outcome = CaseOutcome::Skipped;
                }
                self.current = Some(case);
            },
            None => {},
        }
    }

    /// Reads an opening tag.
    pub fn start(&mut self, e: &XmlElement)
        requires
            old(self).deep_view().roomy(1),
        ensures
            final(self).deep_view() == old(self).deep_view().after_start(e.deep_view()),
    {
        self.open_elements = self.open_elements + 1;
        if xml::is_name(&e.name, "testsuite") {
            self.saw_suite = true;
            list::push(&mut self.suites, e.attribute("name"));
        } else if xml::is_name(&e.name, "testcase") {
            self.counts.total = self.counts.total + 1;
            let suite = if self.suites.len() > 0 {
                text::copy_option(&self.suites[self.suites.len() - 1])
            } else {
                None
            };
            self.current = Some(
                OpenCase { suite, test: e.attribute("name"), outcome: CaseOutcome::Passed },
            );
        } else if is_problem_name(&e.name) {
            match self.current.take() {
                Some(case) => {
                    let mut case = case;
                    self.pending = Some(case.problem(e));
                    self.current = Some(case);
                },
                None => {},
            }
        } else if xml::is_name(&e.name, "skipped") {
            self.skipped();
        }
    }

    /// Reads an element without content.
    pub fn empty(&mut self, e: &XmlElement)
        requires
            old(self).deep_view().roomy(1),
        ensures
            final(self).deep_view() == old(self).deep_view().after_empty(e.deep_view()),
    {
        if xml::is_name(&e.name, "testsuite") {
            self.saw_suite = true;
        } else if xml::is_name(&e.name, "testcase") {
            self.counts.total = self.counts.total + 1;
            self.counts.passed = self.counts.passed + 1;
        } else if is_problem_name(&e.name) {
            match self.current.take() {
                Some(case) => {
                    let mut case = case;
                    let d = case.problem(e);
                    self.findings.push_diag(d);
                    self.current = Some(case);
                },
                None => {},
            }
        } else if xml::is_name(&e.name, "skipped") {
            self.skipped();
        }
    }

    /// Reads text.
    pub fn text(&mut self, t: &xml::XmlText)
        ensures
            final(self).deep_view() == old(self).deep_view().after_text(
                t.unescaped.deep_view(),
                t.raw@,
            ),
    {
        match self.pending.take() {
            Some(d) => {
                let mut d = d;
                if d.message.as_str().is_empty() {
                    d.message = match &t.unescaped {
                        Some(text) => text::copy(text.as_str()),
                        None => text::lossy(t.raw.as_slice()),
                    };
                }
                self.pending = Some(d);
            },
            None => {},
        }
    }

    /// Reads a closing tag, and says whether anything was open.
    pub fn end(&mut self, name: &Vec<u8>) -> (r: bool)
        requires
            old(self).deep_view().roomy(1),
        ensures
            match old(self).deep_view().after_end(name@) {
                Some(next) => r && final(self).deep_view() == next,
                None => !r && final(self).deep_view() == old(self).deep_view(),
            },
    {
        if self.open_elements == 0 {
            return false;
        }
        self.open_elements = self.open_elements - 1;
        if xml::is_name(name, "testsuite") {
            if self.suites.len() > 0 {
                let ghost before = self.suites.deep_view();
                let _ = self.suites.pop();
                assert(self.suites.deep_view() =~= before.drop_last());
            }
        } else if is_problem_name(name) {
            match self.pending.take() {
                Some(d) => self.findings.push_diag(d),
                None => {},
            }
        } else if xml::is_name(name, "testcase") {
            match self.current.take() {
                Some(case) => match case.outcome {
                    CaseOutcome::Passed => self.counts.passed = self.counts.passed + 1,
                    CaseOutcome::Skipped => self.counts.skipped = self.counts.skipped + 1,
                    CaseOutcome::Failure => self.counts.failed = self.counts.failed + 1,
                    CaseOutcome::Error => self.counts.errors = self.counts.errors + 1,
                },
                None => {},
            }
        }
        true
    }
}

fn junit_error(message: &str) -> (r: NormalizeError)
    ensures
        r.deep_view() == NormalizeErrorModel::JunitXml(message@),
{
    NormalizeError::JunitXml(text::copy(message))
}

/// Reads a JUnit report from its events.
pub fn read_junit(events: &Vec<XmlEvent>) -> (r: Result<Outcome, NormalizeError>)
    ensures
        outcome_of(r) == junit_outcome(events.deep_view()),
{
    let ghost all = events.deep_view();
    let mut scan = JunitScan::new();
    let count: usize = events.len();
    let mut i: usize = 0;
    while i < count
        invariant_except_break
            junit_from(all, 0, JunitScanModel::begin()) == junit_from(
                all,
                i as int,
                scan.deep_view(),
            ),
        invariant
            i <= count,
            count == events@.len(),
            all == events.deep_view(),
            scan.deep_view().roomy(events@.len() - i),
        ensures
            junit_from(all, 0, JunitScanModel::begin()) == Ok::<
                JunitScanModel,
                NormalizeErrorModel,
            >(scan.deep_view()),
        decreases events@.len() - i,
    {
        assert(all[i as int] == events@[i as int].deep_view());
        match &events[i] {
            XmlEvent::Start(e) => scan.start(e),
            XmlEvent::Empty(e) => scan.empty(e),
            XmlEvent::Text(t) => scan.text(t),
            XmlEvent::End(name) => {
                if !scan.end(name) {
                    return Err(junit_error("unexpected closing element"));
                }
            },
            XmlEvent::Other => {},
            XmlEvent::Eof => {
                if scan.open_elements != 0 {
                    return Err(junit_error("unexpected end of file"));
                }
                break;
            },
            XmlEvent::Failed(message) => {
                return Err(junit_error(message.as_str()));
            },
        }
        i += 1;
    }
    if !scan.saw_suite {
        return Err(junit_error("expected a testsuite element"));
    }
    let verdict = if scan.counts.failed + scan.counts.errors > 0 {
        Verdict::Failed
    } else {
        Verdict::Passed
    };
    Ok(Outcome { verdict, findings: scan.findings, counts: scan.counts, complete: true })
}

fn normalize_junit(raw: &[u8]) -> (r: Result<Outcome, NormalizeError>)
    ensures
        outcome_of(r) == junit_outcome(xml::xml_document(raw@)),
{
    let events = xml::read_document(raw);
    read_junit(&events)
}

/// The member of an optional value.
pub open spec fn below(value: Option<json::JsonModel>, name: Seq<char>) -> Option<json::JsonModel> {
    match value {
        Some(value) => value.member(name),
        None => None,
    }
}

/// The text of an optional value.
pub open spec fn text_in(value: Option<json::JsonModel>) -> Option<Seq<char>> {
    match value {
        Some(value) => value.text(),
        None => None,
    }
}

/// The unsigned number of an optional value.
pub open spec fn unsigned_in(value: Option<json::JsonModel>) -> Option<u64> {
    match value {
        Some(value) => value.unsigned(),
        None => None,
    }
}

/// The place that a SARIF location names.
pub open spec fn sarif_location(location: json::JsonModel) -> SourceLocationModel {
    let physical = location.member("physicalLocation"@);
    let region = below(physical, "region"@);
    SourceLocationModel {
        file: text_in(below(below(physical, "artifactLocation"@), "uri"@)),
        line: unsigned_in(below(region, "startLine"@)),
        column: unsigned_in(below(region, "startColumn"@)),
    }
}

/// The message of a SARIF result: its text, or else its markdown.
pub open spec fn sarif_message(result: json::JsonModel) -> Option<Seq<char>> {
    let message = result.member("message"@);
    match below(message, "text"@) {
        Some(value) => value.text(),
        None => text_in(below(message, "markdown"@)),
    }
}

pub open spec fn sarif_locations(locations: Seq<json::JsonModel>) -> Seq<SourceLocationModel> {
    Seq::new(locations.len(), |i: int| sarif_location(locations[i]))
}

/// The diagnostic of a SARIF result with the given message.
pub open spec fn sarif_diagnostic(result: json::JsonModel, message: Seq<char>) -> DiagnosticModel {
    let locations = result.member_items("locations"@);
    let primary = if locations.len() > 0 {
        sarif_location(locations[0])
    } else {
        SourceLocationModel { file: None, line: None, column: None }
    };
    DiagnosticModel {
        category: DiagnosticCategory::Sarif,
        rule_id: result.member_text("ruleId"@),
        message,
        file: primary.file,
        line: primary.line,
        column: primary.column,
        suite: None,
        test: None,
        related_locations: sarif_locations(result.member_items("relatedLocations"@)),
    }
}

/// A result is an error; without a level it is a warning.
pub open spec fn sarif_fails(result: json::JsonModel) -> bool {
    result.member_text("level"@) == Some("error"@)
}

/// What has been read of a SARIF report.
#[derive(Debug, PartialEq, Eq)]
pub struct SarifScan {
    pub failed: u64,
    pub findings: Findings,
    pub seen: bool,
}

pub struct SarifScanModel {
    pub failed: nat,
    pub findings: FindingsModel,
    pub seen: bool,
}

impl DeepView for SarifScan {
    type V = SarifScanModel;

    open spec fn deep_view(&self) -> SarifScanModel {
        SarifScanModel {
            failed: self.failed as nat,
            findings: self.findings.deep_view(),
            seen: self.seen,
        }
    }
}

impl SarifScanModel {
    /// After one more result.
    pub open spec fn after(self, result: json::JsonModel) -> Result<
        SarifScanModel,
        NormalizeErrorModel,
    > {
        match sarif_message(result) {
            Some(message) => {
                let next = SarifScanModel {
                    failed: if sarif_fails(result) {
                        self.failed + 1
                    } else {
                        self.failed
                    },
                    findings: self.findings.with(sarif_diagnostic(result, message)),
                    seen: true,
                };
                if next.failed > u64::MAX || next.findings.omitted > u64::MAX {
                    Err(NormalizeErrorModel::CountOverflow)
                } else {
                    Ok(next)
                }
            },
            None => Err(NormalizeErrorModel::InvalidSarif("result message is required"@)),
        }
    }
}

/// The results of a run from result `i` on.
pub open spec fn sarif_results_from(
    results: Seq<json::JsonModel>,
    i: int,
    scan: SarifScanModel,
) -> Result<SarifScanModel, NormalizeErrorModel>
    decreases results.len() - i,
{
    if i < 0 || i >= results.len() {
        Ok(scan)
    } else {
        match scan.after(results[i]) {
            Ok(next) => sarif_results_from(results, i + 1, next),
            Err(error) => Err(error),
        }
    }
}

/// The results of the runs from run `i` on.
pub open spec fn sarif_runs_from(
    runs: Seq<json::JsonModel>,
    i: int,
    scan: SarifScanModel,
) -> Result<SarifScanModel, NormalizeErrorModel>
    decreases runs.len() - i,
{
    if i < 0 || i >= runs.len() {
        Ok(scan)
    } else {
        match sarif_results_from(runs[i].member_items("results"@), 0, scan) {
            Ok(next) => sarif_runs_from(runs, i + 1, next),
            Err(error) => Err(error),
        }
    }
}

/// What a SARIF report says.
pub open spec fn sarif_outcome(document: Result<json::JsonModel, Seq<char>>) -> Result<
    OutcomeModel,
    NormalizeErrorModel,
> {
    match document {
        Err(message) => Err(NormalizeErrorModel::SarifJson(message)),
        Ok(value) => if value.member_text("version"@) != Some("2.1.0"@) {
            Err(NormalizeErrorModel::InvalidSarif("version must be 2.1.0"@))
        } else {
            match value.member("runs"@) {
                Some(json::JsonModel::Array(runs)) => {
                    let begin = SarifScanModel {
                        failed: 0,
                        findings: FindingsModel::none(),
                        seen: false,
                    };
                    match sarif_runs_from(runs, 0, begin) {
                        Ok(scan) => Ok(
                            OutcomeModel {
                                verdict: if scan.failed > 0 {
                                    Verdict::Failed
                                } else if scan.seen {
                                    Verdict::Passed
                                } else {
                                    Verdict::Unknown
                                },
                                findings: scan.findings,
                                counts: TestCountsModel {
                                    failed: scan.failed,
                                    ..TestCountsModel::zero()
                                },
                                complete: scan.seen,
                            },
                        ),
                        Err(error) => Err(error),
                    }
                },
                _ => Err(NormalizeErrorModel::InvalidSarif("runs must be an array"@)),
            }
        },
    }
}

fn get_in<'a>(value: Option<&'a Json>, name: &str) -> (r: Option<&'a Json>)
    ensures
        json::model_of(r) == below(json::model_of(value), name@),
{
    match value {
        Some(value) => value.get(name),
        None => None,
    }
}

fn str_in(value: Option<&Json>) -> (r: Option<String>)
    ensures
        r.deep_view() == text_in(json::model_of(value)),
{
    match value {
        Some(value) => match value.as_str() {
            Some(s) => Some(text::copy(s)),
            None => None,
        },
        None => None,
    }
}

fn u64_in(value: Option<&Json>) -> (r: Option<u64>)
    ensures
        r == unsigned_in(json::model_of(value)),
{
    match value {
        Some(value) => value.as_u64(),
        None => None,
    }
}

fn source_location(location: &Json) -> (r: SourceLocation)
    ensures
        r.deep_view() == sarif_location(location.model()),
{
    let physical = location.get("physicalLocation");
    let region = get_in(physical, "region");
    SourceLocation {
        file: str_in(get_in(get_in(physical, "artifactLocation"), "uri")),
        line: u64_in(get_in(region, "startLine")),
        column: u64_in(get_in(region, "startColumn")),
    }
}

fn source_locations(locations: Option<&Vec<Json>>) -> (r: Vec<SourceLocation>)
    ensures
        match locations {
            Some(items) => r.deep_view() == sarif_locations(json::models(items@)),
            None => r.deep_view() == Seq::<SourceLocationModel>::empty(),
        },
{
    let mut out: Vec<SourceLocation> = Vec::new();
    match locations {
        Some(items) => {
            let mut i: usize = 0;
            while i < items.len()
                invariant
                    i <= items@.len(),
                    out.deep_view() =~= sarif_locations(json::models(items@)).take(i as int),
                decreases items@.len() - i,
            {
                list::push(&mut out, source_location(&items[i]));
                i += 1;
            }
            assert(out.deep_view() =~= sarif_locations(json::models(items@)));
        },
        None => {
            assert(out.deep_view() =~= Seq::<SourceLocationModel>::empty());
        },
    }
    out
}

fn result_message(result: &Json) -> (r: Option<String>)
    ensures
        r.deep_view() == sarif_message(result.model()),
{
    let message = result.get("message");
    match get_in(message, "text") {
        Some(value) => str_in(Some(value)),
        None => str_in(get_in(message, "markdown")),
    }
}

fn result_diagnostic(result: &Json, message: String) -> (r: Diagnostic)
    ensures
        r.deep_view() == sarif_diagnostic(result.model(), message@),
{
    let primary = match result.get_array("locations") {
        Some(locations) => if locations.len() > 0 {
            source_location(&locations[0])
        } else {
            SourceLocation::default()
        },
        None => SourceLocation::default(),
    };
    let related = result.get_array("relatedLocations");
    let related_locations = source_locations(related);
    assert(related_locations.deep_view() =~= sarif_locations(
        result.model().member_items("relatedLocations"@),
    ));
    Diagnostic {
        category: DiagnosticCategory::Sarif,
        rule_id: str_in(result.get("ruleId")),
        message,
        file: primary.file,
        line: primary.line,
        column: primary.column,
        suite: None,
        test: None,
        related_locations,
    }
}

impl SarifScan {
    /// Reads one result.
    pub fn result(&mut self, result: &Json) -> (r: Result<(), NormalizeError>)
        ensures
            match (r, old(self).deep_view().after(result.model())) {
                (Ok(_), Ok(next)) => final(self).deep_view() == next,
                (Err(error), Err(e)) => error.deep_view() == e,
                _ => false,
            },
    {
        let fails = match result.get_str("level") {
            Some(level) => text::same_text(level, "error"),
            None => false,
        };
        match result_message(result) {
            Some(message) => {
                if fails && self.failed == u64::MAX {
                    return Err(NormalizeError::CountOverflow);
                }
                if self.findings.omitted == u64::MAX && self.findings.diagnostics.len()
                    >= MAX_DIAGNOSTICS {
                    return Err(NormalizeError::CountOverflow);
                }
                let d = result_diagnostic(result, message);
                self.findings.push_diag(d);
                if fails {
                    self.failed = self.failed + 1;
                }
                self.seen = true;
                Ok(())
            },
            None => Err(NormalizeError::InvalidSarif(text::copy("result message is required"))),
        }
    }
}

fn read_results(results: Option<&Vec<Json>>, scan: &mut SarifScan) -> (r: Result<
    (),
    NormalizeError,
>)
    ensures
        ({
            let items = match results {
                Some(items) => json::models(items@),
                None => seq![],
            };
            match (r, sarif_results_from(items, 0, old(scan).deep_view())) {
                (Ok(_), Ok(next)) => final(scan).deep_view() == next,
                (Err(error), Err(e)) => error.deep_view() == e,
                _ => false,
            }
        }),
{
    match results {
        Some(items) => {
            let ghost all = json::models(items@);
            let mut i: usize = 0;
            while i < items.len()
                invariant
                    i <= items@.len(),
                    results == Some(items),
                    all == json::models(items@),
                    sarif_results_from(all, 0, old(scan).deep_view()) == sarif_results_from(
                        all,
                        i as int,
                        scan.deep_view(),
                    ),
                decreases items@.len() - i,
            {
                match scan.result(&items[i]) {
                    Ok(_) => {},
                    Err(error) => {
                        return Err(error);
                    },
                }
                i += 1;
            }
            Ok(())
        },
        None => Ok(()),
    }
}

fn invalid_sarif(message: &str) -> (r: NormalizeError)
    ensures
        r.deep_view() == NormalizeErrorModel::InvalidSarif(message@),
{
    NormalizeError::InvalidSarif(text::copy(message))
}

/// Reads a SARIF report from its JSON document.
pub fn read_sarif(value: &Json) -> (r: Result<Outcome, NormalizeError>)
    ensures
        outcome_of(r) == sarif_outcome(Ok(value.model())),
{
    let version = match value.get_str("version") {
        Some(version) => text::same_text(version, "2.1.0"),
        None => false,
    };
    if !version {
        return Err(invalid_sarif("version must be 2.1.0"));
    }
    let runs = match value.get_array("runs") {
        Some(runs) => runs,
        None => {
            return Err(invalid_sarif("runs must be an array"));
        },
    };
    let ghost all = json::models(runs@);
    let mut scan = SarifScan { failed: 0, findings: Findings::new(), seen: false };
    let ghost begin = scan.deep_view();
    let mut i: usize = 0;
    while i < runs.len()
        invariant
            i <= runs@.len(),
            all == json::models(runs@),
            value.model().member_text("version"@) == Some("2.1.0"@),
            value.model().member("runs"@) == Some(json::JsonModel::Array(all)),
            begin == (SarifScanModel { failed: 0, findings: FindingsModel::none(), seen: false }),
            sarif_runs_from(all, 0, begin) == sarif_runs_from(all, i as int, scan.deep_view()),
        decreases runs@.len() - i,
    {
        let results = runs[i].get_array("results");
        match read_results(results, &mut scan) {
            Ok(_) => {},
            Err(error) => {
                return Err(error);
            },
        }
        i += 1;
    }
    let verdict = if scan.failed > 0 {
        Verdict::Failed
    } else if scan.seen {
        Verdict::Passed
    } else {
        Verdict::Unknown
    };
    let counts = TestCounts { total: 0, passed: 0, failed: scan.failed, skipped: 0, errors: 0 };
    Ok(Outcome { verdict, findings: scan.findings, counts, complete: scan.seen })
}

fn normalize_sarif(raw: &[u8]) -> (r: Result<Outcome, NormalizeError>)
    ensures
        outcome_of(r) == sarif_outcome(json::json_document(raw@)),
{
    match json::parse(raw) {
        Ok(value) => read_sarif(&value),
        Err(message) => Err(NormalizeError::SarifJson(message)),
    }
}

/// The place that a line of text names: `file:line:column`, behind the last
/// ` at ` where there is one.
pub open spec fn place_in(line: Seq<char>) -> SourceLocationModel {
    let candidate = match text::cut_last(line, " at "@) {
        Some((_, location)) => location,
        None => line,
    };
    let parts = text::pieces(text::trimmed_end_of(candidate, ':'), ':');
    let n = parts.len() as int;
    let nowhere = SourceLocationModel { file: None, line: None, column: None };
    if n < 3 {
        nowhere
    } else {
        match text::number_of(text::trimmed(parts[n - 2])) {
            Some(number) => SourceLocationModel {
                file: Some(text::joined(parts.take(n - 2), ":"@)),
                line: Some(number),
                column: text::number_of(text::trimmed(parts[n - 1])),
            },
            None => nowhere,
        }
    }
}

fn location_from(line: &[char]) -> (r: SourceLocation)
    ensures
        r.deep_view() == place_in(line@),
{
    let candidate = match text::split_once_last(line, " at ") {
        Some((_, location)) => location,
        None => line,
    };
    let mut parts = text::split(text::trim_end_of(candidate, ':'), ':');
    let ghost all = text::views(parts@);
    let n: usize = parts.len();
    if n < 3 {
        return SourceLocation::default();
    }
    assert(all[n - 1] == parts@[n - 1]@);
    assert(all[n - 2] == parts@[n - 2]@);
    let column = text::parse_number(text::trim(parts[n - 1]));
    let number = text::parse_number(text::trim(parts[n - 2]));
    if number.is_none() {
        return SourceLocation::default();
    }
    parts.truncate(n - 2);
    assert(text::views(parts@) =~= all.take(n - 2));
    let file = text::join(&parts, ":");
    SourceLocation { file: Some(text::to_text(file.as_slice())), line: number, column }
}

/// The diagnostic that a line of a log stands for.
pub open spec fn line_diagnostic(
    category: DiagnosticCategory,
    line: Seq<char>,
    test: Option<Seq<char>>,
) -> DiagnosticModel {
    let place = place_in(line);
    DiagnosticModel {
        category,
        rule_id: None,
        message: line,
        file: place.file,
        line: place.line,
        column: place.column,
        suite: None,
        test,
        related_locations: seq![],
    }
}

fn diagnostic_of(category: DiagnosticCategory, line: &[char], test: Option<String>) -> (r:
    Diagnostic)
    ensures
        r.deep_view() == line_diagnostic(category, line@, test.deep_view()),
{
    let place = location_from(line);
    let related_locations: Vec<SourceLocation> = Vec::new();
    assert(related_locations.deep_view() =~= Seq::empty());
    Diagnostic {
        category,
        rule_id: None,
        message: text::to_text(line),
        file: place.file,
        line: place.line,
        column: place.column,
        suite: None,
        test,
        related_locations,
    }
}

/// The findings with a line of a plain log: one that speaks of a panic, an
/// error or a failure is a diagnostic.
pub open spec fn after_log_line(findings: FindingsModel, line: Seq<char>) -> FindingsModel {
    let lower = text::lowered(line);
    if text::has(lower, "panic"@) {
        findings.with(line_diagnostic(DiagnosticCategory::Panic, line, None))
    } else if text::has(lower, "error"@) {
        findings.with(line_diagnostic(DiagnosticCategory::Error, line, None))
    } else if text::has(lower, "fail"@) {
        findings.with(line_diagnostic(DiagnosticCategory::Failure, line, None))
    } else {
        findings
    }
}

pub open spec fn log_lines_from(
    lines: Seq<Seq<char>>,
    i: int,
    findings: FindingsModel,
) -> FindingsModel
    decreases lines.len() - i,
{
    if i < 0 || i >= lines.len() {
        findings
    } else {
        log_lines_from(lines, i + 1, after_log_line(findings, lines[i]))
    }
}

/// What a plain log says. It cannot show that anything passed.
pub open spec fn generic_outcome(log: Seq<char>) -> OutcomeModel {
    let findings = log_lines_from(text::lines_of(log), 0, FindingsModel::none());
    OutcomeModel {
        verdict: if findings.diagnostics.len() == 0 {
            Verdict::Unknown
        } else {
            Verdict::Failed
        },
        findings,
        counts: TestCountsModel::zero(),
        complete: false,
    }
}

/// Reads a plain log.
pub fn read_generic(log: &str) -> (r: Outcome)
    ensures
        r.deep_view() == generic_outcome(log@),
{
    let chars = text::to_chars(log);
    let lines = text::lines(chars.as_slice());
    let ghost all = text::views(lines@);
    let mut findings = Findings::new();
    let count: usize = lines.len();
    let mut i: usize = 0;
    while i < count
        invariant
            i <= count,
            count == lines@.len(),
            all == text::views(lines@),
            findings.omitted <= i,
            log_lines_from(all, 0, FindingsModel::none()) == log_lines_from(
                all,
                i as int,
                findings.deep_view(),
            ),
        decreases count - i,
    {
        let line = lines[i];
        let lower = text::to_lower(line);
        if text::contains(lower.as_slice(), "panic") {
            findings.push_diag(diagnostic_of(DiagnosticCategory::Panic, line, None));
        } else if text::contains(lower.as_slice(), "error") {
            findings.push_diag(diagnostic_of(DiagnosticCategory::Error, line, None));
        } else if text::contains(lower.as_slice(), "fail") {
            findings.push_diag(diagnostic_of(DiagnosticCategory::Failure, line, None));
        }
        i += 1;
    }
    let verdict = if findings.diagnostics.len() == 0 {
        Verdict::Unknown
    } else {
        Verdict::Failed
    };
    Outcome { verdict, findings, counts: TestCounts::default(), complete: false }
}

fn normalize_generic(raw: &[u8]) -> (r: Outcome)
    ensures
        r.deep_view() == generic_outcome(text::utf8_lossy(raw@)),
{
    read_generic(text::lossy(raw).as_str())
}

/// The counts with a number behind which a word stands.
pub open spec fn count_named(counts: TestCountsModel, n: nat, word: Seq<char>) -> TestCountsModel {
    if word == "passed"@ {
        TestCountsModel { passed: n, ..counts }
    } else if word == "failed"@ {
        TestCountsModel { failed: n, ..counts }
    } else if word == "skipped"@ {
        TestCountsModel { skipped: n, ..counts }
    } else if word == "error"@ || word == "errors"@ {
        TestCountsModel { errors: n, ..counts }
    } else {
        counts
    }
}

pub open spec fn is_count_name(word: Seq<char>) -> bool {
    word == "passed"@ || word == "failed"@ || word == "skipped"@ || word == "error"@ || word
        == "errors"@
}

/// The counts of a summary line from word `i` on; `None` where it names none.
pub open spec fn summary_from(
    words: Seq<Seq<char>>,
    i: int,
    counts: TestCountsModel,
    found: bool,
) -> Option<TestCountsModel>
    decreases words.len() - i,
{
    if i < 0 || i + 1 >= words.len() {
        if found {
            Some(
                TestCountsModel {
                    total: counts.passed + counts.failed + counts.skipped + counts.errors,
                    ..counts
                },
            )
        } else {
            None
        }
    } else {
        match text::number_of(words[i]) {
            Some(n) => summary_from(
                words,
                i + 1,
                count_named(counts, n as nat, words[i + 1]),
                found || is_count_name(words[i + 1]),
            ),
            None => summary_from(words, i + 1, counts, found),
        }
    }
}

/// The counts that a summary line in lower case names.
pub open spec fn summary_in(lower: Seq<char>) -> Option<TestCountsModel> {
    summary_from(text::runs_of(lower), 0, TestCountsModel::zero(), false)
}

/// What stands behind the last closing bracket of a line.
pub open spec fn test_in(line: Seq<char>) -> Option<Seq<char>> {
    let rest = match text::cut_last(line, "]"@) {
        Some((_, rest)) => rest,
        None => line,
    };
    let name = text::trimmed(rest);
    if name.len() == 0 {
        None
    } else {
        Some(name)
    }
}

/// What has been read of nextest output.
#[derive(Debug, PartialEq, Eq)]
pub struct NextestScan {
    pub findings: Findings,
    pub observed: TestCounts,
    pub summary: Option<TestCounts>,
    pub bad_summary: bool,
}

pub struct NextestScanModel {
    pub findings: FindingsModel,
    pub observed: TestCountsModel,
    pub summary: Option<TestCountsModel>,
    pub bad_summary: bool,
}

impl DeepView for NextestScan {
    type V = NextestScanModel;

    open spec fn deep_view(&self) -> NextestScanModel {
        NextestScanModel {
            findings: self.findings.deep_view(),
            observed: self.observed.deep_view(),
            summary: self.summary.deep_view(),
            bad_summary: self.bad_summary,
        }
    }
}

/// The status word at the start of a line.
pub open spec fn status_of(line: Seq<char>) -> Seq<char> {
    text::trimmed_end_of(text::first_word(text::trimmed_start(line)), ':')
}

impl NextestScanModel {
    pub open spec fn begin() -> NextestScanModel {
        NextestScanModel {
            findings: FindingsModel::none(),
            observed: TestCountsModel::zero(),
            summary: None,
            bad_summary: false,
        }
    }

    /// After the status word of a line.
    pub open spec fn after_status(self, line: Seq<char>) -> NextestScanModel {
        let status = status_of(line);
        let counts = self.observed;
        if status == "PASS"@ {
            NextestScanModel {
                observed: TestCountsModel {
                    total: counts.total + 1,
                    passed: counts.passed + 1,
                    ..counts
                },
                ..self
            }
        } else if status == "FAIL"@ {
            NextestScanModel {
                observed: TestCountsModel {
                    total: counts.total + 1,
                    failed: counts.failed + 1,
                    ..counts
                },
                findings: self.findings.with(
                    line_diagnostic(
                        DiagnosticCategory::Failure,
                        line,
                        test_in(text::trimmed_start(line)),
                    ),
                ),
                ..self
            }
        } else if status == "SKIP"@ {
            NextestScanModel {
                observed: TestCountsModel {
                    total: counts.total + 1,
                    skipped: counts.skipped + 1,
                    ..counts
                },
                ..self
            }
        } else {
            self
        }
    }

    /// After the summary that a line may hold.
    pub open spec fn after_summary(self, lower: Seq<char>) -> NextestScanModel {
        if text::has(lower, "summary"@) && text::has(lower, "test"@) {
            NextestScanModel {
                summary: summary_in(lower),
                bad_summary: self.bad_summary || summary_in(lower) is None,
                ..self
            }
        } else {
            self
        }
    }

    /// After the panic that a line may report.
    pub open spec fn after_panic(self, line: Seq<char>, lower: Seq<char>) -> NextestScanModel {
        if text::has(lower, "panic"@) && status_of(line) != "FAIL"@ {
            NextestScanModel {
                findings: self.findings.with(
                    line_diagnostic(DiagnosticCategory::Panic, line, None),
                ),
                ..self
            }
        } else {
            self
        }
    }

    /// After one more line.
    pub open spec fn after(self, line: Seq<char>) -> NextestScanModel {
        let lower = text::lowered(text::trimmed_start(line));
        self.after_status(line).after_summary(lower).after_panic(line, lower)
    }

    /// The counts of the summary fit in 64 bits.
    pub open spec fn fits(self) -> bool {
        match self.summary {
            Some(summary) => summary.total <= u64::MAX,
            None => true,
        }
    }

    /// The summary counts where it agrees with the lines, and the lines do
    /// otherwise. A summary that cannot be read or that the lines contradict
    /// leaves the verdict open.
    pub open spec fn outcome(self) -> OutcomeModel {
        let trusted = match self.summary {
            Some(summary) => !self.bad_summary && (self.observed.total == 0 || self.observed
                == summary),
            None => false,
        };
        let contradicted = self.bad_summary || (self.summary is Some && self.summary != Some(
            self.observed,
        ) && self.observed.total > 0);
        let counts = if trusted {
            self.summary->0
        } else {
            self.observed
        };
        OutcomeModel {
            verdict: if contradicted {
                Verdict::Unknown
            } else if counts.failed + counts.errors > 0 {
                Verdict::Failed
            } else if trusted {
                Verdict::Passed
            } else {
                Verdict::Unknown
            },
            findings: self.findings,
            counts,
            complete: trusted && !contradicted,
        }
    }
}

/// What nextest output says from line `i` on; `None` where counts do not fit.
pub open spec fn nextest_from(
    lines: Seq<Seq<char>>,
    i: int,
    scan: NextestScanModel,
) -> Option<NextestScanModel>
    decreases lines.len() - i,
{
    if i < 0 || i >= lines.len() {
        Some(scan)
    } else if !scan.after(lines[i]).fits() {
        None
    } else {
        nextest_from(lines, i + 1, scan.after(lines[i]))
    }
}

/// What nextest output says.
pub open spec fn nextest_outcome(output: Seq<char>) -> Result<OutcomeModel, NormalizeErrorModel> {
    match nextest_from(text::lines_of(output), 0, NextestScanModel::begin()) {
        Some(scan) => Ok(scan.outcome()),
        None => Err(NormalizeErrorModel::CountOverflow),
    }
}

/// The counts of a summary line: `Ok(None)` where it names none, and an error
/// where their sum does not fit.
fn parse_nextest_summary(line: &[char]) -> (r: Result<Option<TestCounts>, NormalizeError>)
    ensures
        match r {
            Ok(counts) => counts.deep_view() == summary_in(line@) && (match summary_in(line@) {
                Some(summary) => summary.total <= u64::MAX,
                None => true,
            }),
            Err(error) => error.deep_view() == NormalizeErrorModel::CountOverflow && summary_in(
                line@,
            ) is Some && summary_in(line@)->0.total > u64::MAX,
        },
{
    let words = text::runs(line);
    let ghost all = text::views(words@);
    let mut counts = TestCounts::default();
    let mut found = false;
    let count: usize = words.len();
    let mut i: usize = 0;
    while count > 0 && i < count - 1
        invariant
            count == words@.len(),
            count > 0 ==> i <= count - 1,
            count == 0 ==> i == 0,
            all == text::views(words@),
            counts.total == 0,
            summary_in(line@) == summary_from(all, i as int, counts.deep_view(), found),
        decreases count - i,
    {
        assert(all[i as int] == words@[i as int]@);
        assert(all[i + 1] == words@[i + 1]@);
        match text::parse_number(words[i]) {
            Some(n) => {
                let word = words[i + 1];
                if text::is(word, "passed") {
                    counts.passed = n;
                    found = true;
                } else if text::is(word, "failed") {
                    counts.failed = n;
                    found = true;
                } else if text::is(word, "skipped") {
                    counts.skipped = n;
                    found = true;
                } else if text::is(word, "error") || text::is(word, "errors") {
                    counts.errors = n;
                    found = true;
                }
            },
            None => {},
        }
        i += 1;
    }
    if !found {
        return Ok(None);
    }
    let total: u128 = counts.passed as u128 + counts.failed as u128 + counts.skipped as u128
        + counts.errors as u128;
    if total > u64::MAX as u128 {
        return Err(NormalizeError::CountOverflow);
    }
    counts.total = total as u64;
    Ok(Some(counts))
}

fn test_after_duration(line: &[char]) -> (r: Option<String>)
    ensures
        r.deep_view() == test_in(line@),
{
    let rest = match text::split_once_last(line, "]") {
        Some((_, rest)) => rest,
        None => line,
    };
    let name = text::trim(rest);
    if name.len() == 0 {
        None
    } else {
        Some(text::to_text(name))
    }
}

fn status_word(line: &[char]) -> (r: Vec<char>)
    ensures
        r@ == status_of(line@),
{
    let trimmed = text::trim_start(line);
    let words = text::words(trimmed);
    if words.len() > 0 {
        assert(text::views(words@)[0] == words@[0]@);
        vstd::slice::slice_to_vec(text::trim_end_of(words[0], ':'))
    } else {
        let nothing: Vec<char> = Vec::new();
        assert(nothing@ =~= text::first_word(trimmed@));
        vstd::slice::slice_to_vec(text::trim_end_of(nothing.as_slice(), ':'))
    }
}

impl NextestScan {
    pub fn new() -> (r: NextestScan)
        ensures
            r.deep_view() == NextestScanModel::begin(),
    {
        NextestScan {
            findings: Findings::new(),
            observed: TestCounts::default(),
            summary: None,
            bad_summary: false,
        }
    }

    /// Counters leave room for one more line.
    pub open spec fn roomy(&self, n: int) -> bool {
        &&& self.observed.total + n <= u64::MAX
        &&& self.observed.passed <= self.observed.total
        &&& self.observed.failed <= self.observed.total
        &&& self.observed.skipped <= self.observed.total
        &&& self.findings.omitted + n <= u64::MAX
    }

    fn status(&mut self, line: &[char], status: &[char])
        requires
            status@ == status_of(line@),
            old(self).roomy(1),
        ensures
            final(self).deep_view() == old(self).deep_view().after_status(line@),
    {
        if text::is(status, "PASS") {
            self.observed.total = self.observed.total + 1;
            self.observed.passed = self.observed.passed + 1;
        } else if text::is(status, "FAIL") {
            self.observed.total = self.observed.total + 1;
            self.observed.failed = self.observed.failed + 1;
            let test = test_after_duration(text::trim_start(line));
            self.findings.push_diag(diagnostic_of(DiagnosticCategory::Failure, line, test));
        } else if text::is(status, "SKIP") {
            self.observed.total = self.observed.total + 1;
            self.observed.skipped = self.observed.skipped + 1;
        }
    }

    /// Reads one line; an error where the counts of a summary do not fit.
    pub fn line(&mut self, line: &[char]) -> (r: Result<(), NormalizeError>)
        requires
            old(self).roomy(1),
            old(self).deep_view().fits(),
        ensures
            match r {
                Ok(_) => final(self).deep_view() == old(self).deep_view().after(line@)
                    && final(self).deep_view().fits(),
                Err(error) => error.deep_view() == NormalizeErrorModel::CountOverflow
                    && !old(self).deep_view().after(line@).fits(),
            },
    {
        let status = status_word(line);
        self.status(line, status.as_slice());
        let lower = text::to_lower(text::trim_start(line));
        let ghost middle = self.deep_view();
        if text::contains(lower.as_slice(), "summary") && text::contains(lower.as_slice(), "test") {
            match parse_nextest_summary(lower.as_slice()) {
                Ok(summary) => {
                    if summary.is_none() {
                        self.bad_summary = true;
                    }
                    self.summary = summary;
                },
                Err(error) => {
                    return Err(error);
                },
            }
        }
        assert(self.deep_view() == middle.after_summary(lower@));
        if text::contains(lower.as_slice(), "panic") && !text::is(status.as_slice(), "FAIL") {
            self.findings.push_diag(diagnostic_of(DiagnosticCategory::Panic, line, None));
        }
        Ok(())
    }

    /// What the output says.
    pub fn finish(self) -> (r: Outcome)
        requires
            self.deep_view().fits(),
        ensures
            r.deep_view() == self.deep_view().outcome(),
    {
        let trusted = match &self.summary {
            Some(summary) => !self.bad_summary && (self.observed.total == 0 || self.observed
                == *summary),
            None => false,
        };
        let contradicted = self.bad_summary || (match &self.summary {
            Some(summary) => *summary != self.observed && self.observed.total > 0,
            None => false,
        });
        let counts = match self.summary {
            Some(summary) => if trusted {
                summary
            } else {
                self.observed
            },
            None => self.observed,
        };
        let verdict = if contradicted {
            Verdict::Unknown
        } else if counts.failed > 0 || counts.errors > 0 {
            Verdict::Failed
        } else if trusted {
            Verdict::Passed
        } else {
            Verdict::Unknown
        };
        Outcome {
            verdict,
            findings: self.findings,
            counts,
            complete: trusted && !contradicted,
        }
    }
}

/// Reads nextest output.
pub fn read_nextest(output: &str) -> (r: Result<Outcome, NormalizeError>)
    ensures
        outcome_of(r) == nextest_outcome(output@),
{
    let chars = text::to_chars(output);
    let lines = text::lines(chars.as_slice());
    let ghost all = text::views(lines@);
    let mut scan = NextestScan::new();
    let count: usize = lines.len();
    let mut i: usize = 0;
    while i < count
        invariant
            i <= count,
            count == lines@.len(),
            all == text::views(lines@),
            all == text::lines_of(output@),
            scan.roomy(count - i),
            scan.deep_view().fits(),
            nextest_from(all, 0, NextestScanModel::begin()) == nextest_from(
                all,
                i as int,
                scan.deep_view(),
            ),
        decreases count - i,
    {
        assert(all[i as int] == lines@[i as int]@);
        let ghost before = scan.deep_view();
        match scan.line(lines[i]) {
            Ok(_) => {},
            Err(error) => {
                return Err(error);
            },
        }
        assert(scan.roomy(count - i - 1)) by {
            assert(scan.deep_view().observed.total == scan.observed.total);
            assert(scan.deep_view().findings.omitted == scan.findings.omitted);
        }
        i += 1;
    }
    Ok(scan.finish())
}

fn normalize_nextest(raw: &[u8]) -> (r: Result<Outcome, NormalizeError>)
    ensures
        outcome_of(r) == nextest_outcome(text::utf8_lossy(raw@)),
{
    read_nextest(text::lossy(raw).as_str())
}

/// Where the raw output belongs below a root: at a path that its digest names.
pub open spec fn record_of(raw: Seq<u8>, root: Seq<char>) -> RawArtifactRecordModel {
    RawArtifactRecordModel {
        sha256: digest::sha256_hex(raw),
        path: path::joined(path::joined(root, "sha256"@), digest::sha256_hex(raw) + ".raw"@),
        bytes: raw.len(),
    }
}

/// What a report of the given kind says.
pub open spec fn outcome_for(kind: InputKind, raw: Seq<u8>) -> Result<
    OutcomeModel,
    NormalizeErrorModel,
> {
    match kind {
        InputKind::JunitXml => junit_outcome(xml::xml_document(raw)),
        InputKind::SarifJson => sarif_outcome(json::json_document(raw)),
        InputKind::GenericText => Ok(generic_outcome(text::utf8_lossy(raw))),
        InputKind::NextestText => nextest_outcome(text::utf8_lossy(raw)),
    }
}

/// The pack of a report. A process that failed fails the report, whatever its
/// output says.
pub open spec fn pack_of(
    kind: InputKind,
    raw: Seq<u8>,
    success: bool,
    root: Seq<char>,
) -> Result<LogPackModel, NormalizeErrorModel> {
    match outcome_for(kind, raw) {
        Ok(outcome) => Ok(
            LogPackModel {
                operation: "normalize"@,
                kind,
                verdict: if success {
                    outcome.verdict
                } else {
                    Verdict::Failed
                },
                diagnostics: outcome.findings.diagnostics,
                counts: outcome.counts,
                omitted: outcome.findings.omission(),
                complete: outcome.complete,
                raw_artifact: record_of(raw, root),
            },
        ),
        Err(error) => Err(error),
    }
}

/// Where the raw output is to be kept, which is before it is read.
pub fn raw_record(raw: &[u8], artifact_root: &str) -> (r: RawArtifactRecord)
    ensures
        r.deep_view() == record_of(raw@, artifact_root@),
{
    let hash = digest::sha256_text(raw);
    let directory = path::join(artifact_root, "sha256");
    let name = text::concat(hash.as_str(), ".raw");
    let path = path::join(directory.as_str(), name.as_str());
    RawArtifactRecord { sha256: hash, path, bytes: raw.len() as u64 }
}

/// Normalizes a report into bounded data.
pub fn normalize_bytes(kind: InputKind, raw: &[u8], success: bool, artifact_root: &str) -> (r:
    Result<LogPack, NormalizeError>)
    ensures
        match (r, pack_of(kind, raw@, success, artifact_root@)) {
            (Ok(pack), Ok(p)) => pack.deep_view() == p,
            (Err(error), Err(e)) => error.deep_view() == e,
            _ => false,
        },
{
    let outcome = match kind {
        InputKind::JunitXml => normalize_junit(raw),
        InputKind::SarifJson => normalize_sarif(raw),
        InputKind::GenericText => Ok(normalize_generic(raw)),
        InputKind::NextestText => normalize_nextest(raw),
    };
    match outcome {
        Ok(outcome) => {
            let omitted = if outcome.findings.omitted == 0 {
                None
            } else {
                Some(
                    Omission {
                        count: outcome.findings.omitted,
                        reason: text::copy("diagnostic limit exceeded"),
                    },
                )
            };
            // An observed non-zero process result is authoritative even where output is partial.
            let verdict = if success {
                outcome.verdict
            } else {
                Verdict::Failed
            };
            Ok(
                LogPack {
                    operation: text::copy("normalize"),
                    kind,
                    verdict,
                    diagnostics: outcome.findings.diagnostics,
                    counts: outcome.counts,
                    omitted,
                    complete: outcome.complete,
                    raw_artifact: raw_record(raw, artifact_root),
                },
            )
        },
        Err(error) => Err(error),
    }
}

impl FindingsModel {
    /// Within the limits, and nothing is left out before the limit is reached.
    pub open spec fn bounded(self) -> bool {
        &&& self.diagnostics.len() <= MAX_DIAGNOSTICS
        &&& self.omitted > 0 ==> self.diagnostics.len() == MAX_DIAGNOSTICS
        &&& forall|i: int|
            0 <= i < self.diagnostics.len() ==> (#[trigger] self.diagnostics[i]).message.len()
                <= MAX_MESSAGE_CHARS + 3
    }
}

/// One more diagnostic is kept or counted, never dropped, and the limits hold.
pub proof fn every_diagnostic_is_kept_or_counted(findings: FindingsModel, d: DiagnosticModel)
    requires
        findings.bounded(),
    ensures
        findings.with(d).bounded(),
        findings.with(d).diagnostics.len() + findings.with(d).omitted
            == findings.diagnostics.len() + findings.omitted + 1,
{
    reveal_strlit("...");
}

proof fn junit_is_bounded(events: Seq<xml::XmlEventModel>, i: int, scan: JunitScanModel)
    requires
        scan.findings.bounded(),
    ensures
        junit_from(events, i, scan) matches Ok(end) ==> end.findings.bounded(),
    decreases events.len() - i,
{
    if 0 <= i < events.len() {
        match events[i] {
            xml::XmlEventModel::Start(e) => {
                junit_is_bounded(events, i + 1, scan.after_start(e));
            },
            xml::XmlEventModel::Empty(e) => {
                if scan.current is Some {
                    every_diagnostic_is_kept_or_counted(
                        scan.findings,
                        problem_of(e, scan.current->0),
                    );
                }
                junit_is_bounded(events, i + 1, scan.after_empty(e));
            },
            xml::XmlEventModel::Text(unescaped, raw) => {
                junit_is_bounded(events, i + 1, scan.after_text(unescaped, raw));
            },
            xml::XmlEventModel::End(name) => {
                if scan.pending is Some {
                    every_diagnostic_is_kept_or_counted(scan.findings, scan.pending->0);
                }
                if scan.after_end(name) is Some {
                    junit_is_bounded(events, i + 1, scan.after_end(name)->0);
                }
            },
            xml::XmlEventModel::Other => {
                junit_is_bounded(events, i + 1, scan);
            },
            _ => {},
        }
    }
}

proof fn sarif_results_are_bounded(results: Seq<json::JsonModel>, i: int, scan: SarifScanModel)
    requires
        scan.findings.bounded(),
    ensures
        sarif_results_from(results, i, scan) matches Ok(end) ==> end.findings.bounded(),
    decreases results.len() - i,
{
    if 0 <= i < results.len() {
        match sarif_message(results[i]) {
            Some(message) => {
                every_diagnostic_is_kept_or_counted(
                    scan.findings,
                    sarif_diagnostic(results[i], message),
                );
            },
            None => {},
        }
        match scan.after(results[i]) {
            Ok(next) => {
                sarif_results_are_bounded(results, i + 1, next);
            },
            Err(_) => {},
        }
    }
}

proof fn sarif_is_bounded(runs: Seq<json::JsonModel>, i: int, scan: SarifScanModel)
    requires
        scan.findings.bounded(),
    ensures
        sarif_runs_from(runs, i, scan) matches Ok(end) ==> end.findings.bounded(),
    decreases runs.len() - i,
{
    if 0 <= i < runs.len() {
        let results = runs[i].member_items("results"@);
        sarif_results_are_bounded(results, 0, scan);
        match sarif_results_from(results, 0, scan) {
            Ok(next) => {
                sarif_is_bounded(runs, i + 1, next);
            },
            Err(_) => {},
        }
    }
}

proof fn generic_is_bounded(lines: Seq<Seq<char>>, i: int, findings: FindingsModel)
    requires
        findings.bounded(),
    ensures
        log_lines_from(lines, i, findings).bounded(),
    decreases lines.len() - i,
{
    if 0 <= i < lines.len() {
        let line = lines[i];
        every_diagnostic_is_kept_or_counted(
            findings,
            line_diagnostic(DiagnosticCategory::Panic, line, None),
        );
        every_diagnostic_is_kept_or_counted(
            findings,
            line_diagnostic(DiagnosticCategory::Error, line, None),
        );
        every_diagnostic_is_kept_or_counted(
            findings,
            line_diagnostic(DiagnosticCategory::Failure, line, None),
        );
        generic_is_bounded(lines, i + 1, after_log_line(findings, line));
    }
}

proof fn nextest_is_bounded(lines: Seq<Seq<char>>, i: int, scan: NextestScanModel)
    requires
        scan.findings.bounded(),
    ensures
        nextest_from(lines, i, scan) matches Some(end) ==> end.findings.bounded(),
    decreases lines.len() - i,
{
    if 0 <= i < lines.len() {
        let line = lines[i];
        every_diagnostic_is_kept_or_counted(
            scan.findings,
            line_diagnostic(
                DiagnosticCategory::Failure,
                line,
                test_in(text::trimmed_start(line)),
            ),
        );
        every_diagnostic_is_kept_or_counted(
            scan.findings,
            line_diagnostic(DiagnosticCategory::Panic, line, None),
        );
        assert(scan.after(line).findings.bounded());
        nextest_is_bounded(lines, i + 1, scan.after(line));
    }
}

/// Whatever a report holds, its pack has no more diagnostics than the limit, no
/// message longer than the limit and its three dots, and leaves a diagnostic out
/// only where the limit is reached.
pub proof fn packs_are_bounded(kind: InputKind, raw: Seq<u8>, success: bool, root: Seq<char>)
    ensures
        pack_of(kind, raw, success, root) matches Ok(pack) ==> {
            &&& pack.diagnostics.len() <= MAX_DIAGNOSTICS
            &&& pack.omitted is Some ==> pack.diagnostics.len() == MAX_DIAGNOSTICS
            &&& forall|i: int|
                0 <= i < pack.diagnostics.len() ==> (#[trigger] pack.diagnostics[i]).message.len()
                    <= MAX_MESSAGE_CHARS + 3
        },
{
    match kind {
        InputKind::JunitXml => {
            junit_is_bounded(xml::xml_document(raw), 0, JunitScanModel::begin());
        },
        InputKind::SarifJson => {
            match json::json_document(raw) {
                Ok(value) => {
                    let runs = value.member_items("runs"@);
                    let begin = SarifScanModel {
                        failed: 0,
                        findings: FindingsModel::none(),
                        seen: false,
                    };
                    sarif_is_bounded(runs, 0, begin);
                },
                Err(_) => {},
            }
        },
        InputKind::GenericText => {
            generic_is_bounded(
                text::lines_of(text::utf8_lossy(raw)),
                0,
                FindingsModel::none(),
            );
        },
        InputKind::NextestText => {
            nextest_is_bounded(
                text::lines_of(text::utf8_lossy(raw)),
                0,
                NextestScanModel::begin(),
            );
        },
    }
}

/// A report passes only where its process succeeded and it counts no failure and
/// no error.
pub proof fn passing_means_no_failure(
    kind: InputKind,
    raw: Seq<u8>,
    success: bool,
    root: Seq<char>,
)
    ensures
        pack_of(kind, raw, success, root) matches Ok(pack) ==> {
            &&& pack.verdict == Verdict::Passed ==> {
                &&& success
                &&& pack.counts.failed == 0
                &&& pack.counts.errors == 0
            }
            &&& !success ==> pack.verdict == Verdict::Failed
        },
{
}

proof fn broken_junit_fails(events: Seq<xml::XmlEventModel>, i: int, scan: JunitScanModel)
    requires
        xml::closed(events),
        events.last() is Failed,
        0 <= i < events.len(),
    ensures
        junit_from(events, i, scan) is Err,
    decreases events.len() - i,
{
    if i < events.len() - 1 {
        assert(!events[i].ends());
        match events[i] {
            xml::XmlEventModel::Start(e) => {
                broken_junit_fails(events, i + 1, scan.after_start(e));
            },
            xml::XmlEventModel::Empty(e) => {
                broken_junit_fails(events, i + 1, scan.after_empty(e));
            },
            xml::XmlEventModel::Text(unescaped, raw) => {
                broken_junit_fails(events, i + 1, scan.after_text(unescaped, raw));
            },
            xml::XmlEventModel::End(name) => {
                if scan.after_end(name) is Some {
                    broken_junit_fails(events, i + 1, scan.after_end(name)->0);
                }
            },
            xml::XmlEventModel::Other => {
                broken_junit_fails(events, i + 1, scan);
            },
            _ => {},
        }
    }
}

/// A report that cannot be read to its end is refused: an XML document that
/// breaks off in an error, and a document that is not JSON.
pub proof fn broken_reports_are_refused(
    events: Seq<xml::XmlEventModel>,
    message: Seq<char>,
)
    requires
        xml::closed(events),
        events.last() is Failed,
    ensures
        junit_outcome(events) is Err,
        sarif_outcome(Err(message)) == Err::<OutcomeModel, NormalizeErrorModel>(
            NormalizeErrorModel::SarifJson(message),
        ),
{
    broken_junit_fails(events, 0, JunitScanModel::begin());
}

impl TestCountsModel {
    /// No test is counted under two outcomes.
    pub open spec fn disjoint(self) -> bool {
        self.passed + self.failed + self.skipped + self.errors <= self.total
    }
}

proof fn junit_counts_once(events: Seq<xml::XmlEventModel>, i: int, scan: JunitScanModel)
    requires
        scan.counts.passed + scan.counts.failed + scan.counts.skipped + scan.counts.errors + (
        if scan.current is Some {
            1int
        } else {
            0int
        }) <= scan.counts.total,
    ensures
        junit_from(events, i, scan) matches Ok(end) ==> end.counts.disjoint(),
    decreases events.len() - i,
{
    if 0 <= i < events.len() {
        match events[i] {
            xml::XmlEventModel::Start(e) => {
                junit_counts_once(events, i + 1, scan.after_start(e));
            },
            xml::XmlEventModel::Empty(e) => {
                junit_counts_once(events, i + 1, scan.after_empty(e));
            },
            xml::XmlEventModel::Text(unescaped, raw) => {
                junit_counts_once(events, i + 1, scan.after_text(unescaped, raw));
            },
            xml::XmlEventModel::End(name) => {
                if scan.after_end(name) is Some {
                    junit_counts_once(events, i + 1, scan.after_end(name)->0);
                }
            },
            xml::XmlEventModel::Other => {
                junit_counts_once(events, i + 1, scan);
            },
            _ => {},
        }
    }
}

proof fn summary_adds_up(
    words: Seq<Seq<char>>,
    i: int,
    counts: TestCountsModel,
    found: bool,
)
    ensures
        summary_from(words, i, counts, found) matches Some(summary) ==> summary.disjoint(),
    decreases words.len() - i,
{
    if 0 <= i && i + 1 < words.len() {
        match text::number_of(words[i]) {
            Some(n) => {
                summary_adds_up(
                    words,
                    i + 1,
                    count_named(counts, n as nat, words[i + 1]),
                    found || is_count_name(words[i + 1]),
                );
            },
            None => {
                summary_adds_up(words, i + 1, counts, found);
            },
        }
    }
}

proof fn nextest_counts_once(lines: Seq<Seq<char>>, i: int, scan: NextestScanModel)
    requires
        scan.observed.disjoint(),
        scan.summary matches Some(summary) ==> summary.disjoint(),
    ensures
        nextest_from(lines, i, scan) matches Some(end) ==> end.outcome().counts.disjoint(),
    decreases lines.len() - i,
{
    if 0 <= i < lines.len() {
        let lower = text::lowered(text::trimmed_start(lines[i]));
        summary_adds_up(text::runs_of(lower), 0, TestCountsModel::zero(), false);
        nextest_counts_once(lines, i + 1, scan.after(lines[i]));
    }
}

/// In a JUnit report and in nextest output no test is counted under two outcomes.
pub proof fn tests_are_counted_once(events: Seq<xml::XmlEventModel>, output: Seq<char>)
    ensures
        junit_outcome(events) matches Ok(outcome) ==> outcome.counts.disjoint(),
        nextest_outcome(output) matches Ok(outcome) ==> outcome.counts.disjoint(),
{
    junit_counts_once(events, 0, JunitScanModel::begin());
    nextest_counts_once(text::lines_of(output), 0, NextestScanModel::begin());
}

/// Behind the events from `i` on every test case has been closed, and none was opened in
/// another.
pub open spec fn cases_close_from(events: Seq<xml::XmlEventModel>, i: int, open: bool) -> bool
    decreases events.len() - i,
{
    if i < 0 || i >= events.len() {
        !open
    } else {
        match events[i] {
            xml::XmlEventModel::Start(e) => if xml::spells(e.name, "testcase"@) {
                !open && cases_close_from(events, i + 1, true)
            } else {
                cases_close_from(events, i + 1, open)
            },
            xml::XmlEventModel::End(name) => if xml::spells(name, "testcase"@) {
                open && cases_close_from(events, i + 1, false)
            } else {
                cases_close_from(events, i + 1, open)
            },
            xml::XmlEventModel::Eof | xml::XmlEventModel::Failed(_) => !open,
            _ => cases_close_from(events, i + 1, open),
        }
    }
}

proof fn closed_cases_are_counted(events: Seq<xml::XmlEventModel>, i: int, scan: JunitScanModel)
    requires
        cases_close_from(events, i, scan.current is Some),
        scan.counts.passed + scan.counts.failed + scan.counts.skipped + scan.counts.errors + (
        if scan.current is Some {
            1int
        } else {
            0int
        }) == scan.counts.total,
    ensures
        junit_from(events, i, scan) matches Ok(end) ==> end.counts.passed + end.counts.failed
            + end.counts.skipped + end.counts.errors == end.counts.total,
    decreases events.len() - i,
{
    if 0 <= i < events.len() {
        reveal_strlit("testcase");
        reveal_strlit("testsuite");
        reveal_strlit("failure");
        reveal_strlit("error");
        match events[i] {
            xml::XmlEventModel::Start(e) => {
                closed_cases_are_counted(events, i + 1, scan.after_start(e));
            },
            xml::XmlEventModel::Empty(e) => {
                closed_cases_are_counted(events, i + 1, scan.after_empty(e));
            },
            xml::XmlEventModel::Text(unescaped, raw) => {
                closed_cases_are_counted(events, i + 1, scan.after_text(unescaped, raw));
            },
            xml::XmlEventModel::End(name) => {
                if scan.after_end(name) is Some {
                    closed_cases_are_counted(events, i + 1, scan.after_end(name)->0);
                }
            },
            xml::XmlEventModel::Other => {
                closed_cases_are_counted(events, i + 1, scan);
            },
            _ => {},
        }
    }
}

/// In a JUnit report whose test cases are closed and do not stand in one another, every test is
/// counted under exactly one outcome.
pub proof fn closed_tests_have_one_outcome(events: Seq<xml::XmlEventModel>)
    requires
        cases_close_from(events, 0, false),
    ensures
        junit_outcome(events) matches Ok(outcome) ==> outcome.counts.passed + outcome.counts.failed
            + outcome.counts.skipped + outcome.counts.errors == outcome.counts.total,
{
    closed_cases_are_counted(events, 0, JunitScanModel::begin());
}

} // verus!
