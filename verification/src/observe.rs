//! Normalization of compiler and test output.
//!
//! Raw output is kept elsewhere. An [`ObservationPack`] holds every structured
//! compiler diagnostic or detected test failure.

pub mod laws;

use vstd::prelude::*;
use crate::digest;
use crate::json;
use crate::json::Json;
use crate::list;
use crate::path;
use crate::text;

verus! {

broadcast use vstd::string::group_string_axioms;

#[derive(Clone, Copy, Debug, PartialEq, Eq, Structural)]
pub enum InputKind {
    CargoJson,
    CargoTestText,
}

#[derive(Clone, Copy, Debug, PartialEq, Eq, Structural)]
pub enum Verdict {
    Passed,
    Failed,
    Unknown,
}

#[derive(Clone, Debug, PartialEq, Eq)]
pub struct SourceLocation {
    pub file: String,
    pub line: u64,
    pub column: u64,
}

/// What a `SourceLocation` says.
pub struct SourceLocationModel {
    pub file: Seq<char>,
    pub line: u64,
    pub column: u64,
}

impl DeepView for SourceLocation {
    type V = SourceLocationModel;

    open spec fn deep_view(&self) -> SourceLocationModel {
        SourceLocationModel {
            file: self.file@,
            line: self.line,
            column: self.column,
        }
    }
}

impl SourceLocation {
    /// A copy that says the same.
    pub fn copy(&self) -> (r: SourceLocation)
        ensures
            r.deep_view() == self.deep_view(),
    {
        SourceLocation {
            file: text::copy(self.file.as_str()),
            line: self.line,
            column: self.column,
        }
    }
}

#[derive(Clone, Debug, PartialEq, Eq)]
pub struct Diagnostic {
    pub kind: String,
    pub code: Option<String>,
    pub message: String,
    pub primary_location: Option<SourceLocation>,
    pub related_locations: Vec<SourceLocation>,
}

/// What a `Diagnostic` says.
pub struct DiagnosticModel {
    pub kind: Seq<char>,
    pub code: Option<Seq<char>>,
    pub message: Seq<char>,
    pub primary_location: Option<SourceLocationModel>,
    pub related_locations: Seq<SourceLocationModel>,
}

impl DeepView for Diagnostic {
    type V = DiagnosticModel;

    open spec fn deep_view(&self) -> DiagnosticModel {
        DiagnosticModel {
            kind: self.kind@,
            code: self.code.deep_view(),
            message: self.message@,
            primary_location: self.primary_location.deep_view(),
            related_locations: self.related_locations.deep_view(),
        }
    }
}

#[derive(Clone, Debug, PartialEq, Eq)]
pub struct TestSummary {
    pub passed: Option<u64>,
    pub failed: Option<u64>,
    pub ignored: Option<u64>,
}

/// What a `TestSummary` says; its counts may be larger than 64 bits hold.
pub struct TestSummaryModel {
    pub passed: Option<nat>,
    pub failed: Option<nat>,
    pub ignored: Option<nat>,
}

pub open spec fn as_count(n: Option<u64>) -> Option<nat> {
    match n {
        Some(n) => Some(n as nat),
        None => None,
    }
}

impl DeepView for TestSummary {
    type V = TestSummaryModel;

    open spec fn deep_view(&self) -> TestSummaryModel {
        TestSummaryModel {
            passed: as_count(self.passed),
            failed: as_count(self.failed),
            ignored: as_count(self.ignored),
        }
    }
}

#[derive(Clone, Debug, PartialEq, Eq)]
pub struct OmittedSections {
    pub count: u64,
    pub reason: String,
}

/// What a `OmittedSections` says.
pub struct OmittedSectionsModel {
    pub count: nat,
    pub reason: Seq<char>,
}

impl DeepView for OmittedSections {
    type V = OmittedSectionsModel;

    open spec fn deep_view(&self) -> OmittedSectionsModel {
        OmittedSectionsModel {
            count: self.count as nat,
            reason: self.reason@,
        }
    }
}

#[derive(Clone, Debug, PartialEq, Eq)]
pub struct RawArtifact {
    pub uri: String,
    pub sha256: String,
    pub bytes: u64,
}

/// What a `RawArtifact` says.
pub struct RawArtifactModel {
    pub uri: Seq<char>,
    pub sha256: Seq<char>,
    pub bytes: nat,
}

impl DeepView for RawArtifact {
    type V = RawArtifactModel;

    open spec fn deep_view(&self) -> RawArtifactModel {
        RawArtifactModel {
            uri: self.uri@,
            sha256: self.sha256@,
            bytes: self.bytes as nat,
        }
    }
}

#[derive(Clone, Debug, PartialEq, Eq)]
pub struct ObservationPack {
    pub schema: String,
    pub operation: String,
    pub verdict: Verdict,
    pub diagnostics: Vec<Diagnostic>,
    pub tests: Option<TestSummary>,
    pub omitted_sections: OmittedSections,
    pub completeness: String,
    pub raw_artifact: RawArtifact,
}

/// What a `ObservationPack` says.
pub struct ObservationPackModel {
    pub schema: Seq<char>,
    pub operation: Seq<char>,
    pub verdict: Verdict,
    pub diagnostics: Seq<DiagnosticModel>,
    pub tests: Option<TestSummaryModel>,
    pub omitted_sections: OmittedSectionsModel,
    pub completeness: Seq<char>,
    pub raw_artifact: RawArtifactModel,
}

impl DeepView for ObservationPack {
    type V = ObservationPackModel;

    open spec fn deep_view(&self) -> ObservationPackModel {
        ObservationPackModel {
            schema: self.schema@,
            operation: self.operation@,
            verdict: self.verdict,
            diagnostics: self.diagnostics.deep_view(),
            tests: self.tests.deep_view(),
            omitted_sections: self.omitted_sections.deep_view(),
            completeness: self.completeness@,
            raw_artifact: self.raw_artifact.deep_view(),
        }
    }
}

/// What was read of the output, before it is put into a pack.
#[derive(Clone, Debug, PartialEq, Eq)]
pub struct ParsedObservation {
    pub verdict: Verdict,
    pub diagnostics: Vec<Diagnostic>,
    pub tests: Option<TestSummary>,
    pub omitted_count: u64,
    pub completeness: String,
}

/// What a `ParsedObservation` says.
pub struct ParsedObservationModel {
    pub verdict: Verdict,
    pub diagnostics: Seq<DiagnosticModel>,
    pub tests: Option<TestSummaryModel>,
    pub omitted_count: nat,
    pub completeness: Seq<char>,
}

impl DeepView for ParsedObservation {
    type V = ParsedObservationModel;

    open spec fn deep_view(&self) -> ParsedObservationModel {
        ParsedObservationModel {
            verdict: self.verdict,
            diagnostics: self.diagnostics.deep_view(),
            tests: self.tests.deep_view(),
            omitted_count: self.omitted_count as nat,
            completeness: self.completeness@,
        }
    }
}

#[derive(Clone, Debug, PartialEq, Eq)]
pub enum NormalizeError {
    Json(String),
    UnsupportedInputKind(String),
    /// The counts of the output do not fit in 64 bits.
    CountOverflow,
}

pub enum NormalizeErrorModel {
    Json(Seq<char>),
    UnsupportedInputKind(Seq<char>),
    CountOverflow,
}

impl DeepView for NormalizeError {
    type V = NormalizeErrorModel;

    open spec fn deep_view(&self) -> NormalizeErrorModel {
        match self {
            NormalizeError::Json(e) => NormalizeErrorModel::Json(e@),
            NormalizeError::UnsupportedInputKind(kind) => NormalizeErrorModel::UnsupportedInputKind(
                kind@,
            ),
            NormalizeError::CountOverflow => NormalizeErrorModel::CountOverflow,
        }
    }
}

impl NormalizeErrorModel {
    pub open spec fn message(self) -> Seq<char> {
        match self {
            NormalizeErrorModel::Json(e) => "JSON error: "@ + e,
            NormalizeErrorModel::UnsupportedInputKind(kind) => "unsupported input kind "@
                + text::debug_quoted(kind) + "; expected cargo-json or cargo-test-text"@,
            NormalizeErrorModel::CountOverflow => "counts do not fit in 64 bits"@,
        }
    }
}

impl NormalizeError {
    /// The error as a sentence for a person.
    pub fn message(&self) -> (r: String)
        ensures
            r@ == self.deep_view().message(),
    {
        match self {
            NormalizeError::Json(e) => text::concat("JSON error: ", e.as_str()),
            NormalizeError::UnsupportedInputKind(kind) => {
                let quoted = text::debug_quote(kind.as_str());
                let start = text::concat("unsupported input kind ", quoted.as_str());
                text::concat(start.as_str(), "; expected cargo-json or cargo-test-text")
            },
            NormalizeError::CountOverflow => text::copy("counts do not fit in 64 bits"),
        }
    }
}

impl InputKind {
    /// The kind with the given name.
    pub open spec fn named(value: Seq<char>) -> Option<InputKind> {
        if value == "cargo-json"@ {
            Some(InputKind::CargoJson)
        } else if value == "cargo-test-text"@ {
            Some(InputKind::CargoTestText)
        } else {
            None
        }
    }

    pub open spec fn operation_name(self) -> Seq<char> {
        match self {
            InputKind::CargoJson => "cargo-build"@,
            InputKind::CargoTestText => "cargo-test"@,
        }
    }

    pub fn parse(value: &str) -> (r: Result<InputKind, NormalizeError>)
        ensures
            match (r, InputKind::named(value@)) {
                (Ok(kind), Some(named)) => kind == named,
                (Err(error), None) => error.deep_view()
                    == NormalizeErrorModel::UnsupportedInputKind(value@),
                _ => false,
            },
    {
        if text::same_text(value, "cargo-json") {
            Ok(InputKind::CargoJson)
        } else if text::same_text(value, "cargo-test-text") {
            Ok(InputKind::CargoTestText)
        } else {
            Err(NormalizeError::UnsupportedInputKind(text::copy(value)))
        }
    }

    fn operation(self) -> (r: String)
        ensures
            r@ == self.operation_name(),
    {
        match self {
            InputKind::CargoJson => text::copy("cargo-build"),
            InputKind::CargoTestText => text::copy("cargo-test"),
        }
    }
}

/// The place of a span of compiler output.
pub open spec fn span_location(span: json::JsonModel) -> Option<SourceLocationModel> {
    match (
        span.member_text("file_name"@),
        span.member_unsigned("line_start"@),
        span.member_unsigned("column_start"@),
    ) {
        (Some(file), Some(line), Some(column)) => Some(SourceLocationModel { file, line, column }),
        _ => None,
    }
}

/// The places of the spans from `i` on.
pub open spec fn locations_from(spans: Seq<json::JsonModel>, i: int) -> Seq<SourceLocationModel>
    decreases spans.len() - i,
{
    if i < 0 || i >= spans.len() {
        seq![]
    } else {
        match span_location(spans[i]) {
            Some(location) => seq![location] + locations_from(spans, i + 1),
            None => locations_from(spans, i + 1),
        }
    }
}

/// The place of the first span from `i` on that is marked as primary.
pub open spec fn marked_from(spans: Seq<json::JsonModel>, i: int) -> Option<SourceLocationModel>
    decreases spans.len() - i,
{
    if i < 0 || i >= spans.len() {
        None
    } else if spans[i].member_boolean("is_primary"@) == Some(true) {
        span_location(spans[i])
    } else {
        marked_from(spans, i + 1)
    }
}

/// The places from `i` on that differ from the given one.
pub open spec fn others_from(
    locations: Seq<SourceLocationModel>,
    primary: SourceLocationModel,
    i: int,
) -> Seq<SourceLocationModel>
    decreases locations.len() - i,
{
    if i < 0 || i >= locations.len() {
        seq![]
    } else if locations[i] == primary {
        others_from(locations, primary, i + 1)
    } else {
        seq![locations[i]] + others_from(locations, primary, i + 1)
    }
}

/// The diagnostic of a compiler message, which has a level and a text at least.
/// Its place is that of the span marked as primary, or else the first place.
pub open spec fn message_diagnostic(message: json::JsonModel) -> Option<DiagnosticModel> {
    match (message.member_text("level"@), message.member_text("message"@)) {
        (Some(level), Some(text)) => {
            let spans = message.member_items("spans"@);
            let locations = locations_from(spans, 0);
            let primary = match marked_from(spans, 0) {
                Some(location) => Some(location),
                None => if locations.len() > 0 {
                    Some(locations[0])
                } else {
                    None
                },
            };
            Some(
                DiagnosticModel {
                    kind: level,
                    code: match message.member("code"@) {
                        Some(code) => code.member_text("code"@),
                        None => None,
                    },
                    message: text,
                    primary_location: primary,
                    related_locations: match primary {
                        Some(primary) => others_from(locations, primary, 0),
                        None => locations,
                    },
                },
            )
        },
        _ => None,
    }
}

fn span_to_location(span: &Json) -> (r: Option<SourceLocation>)
    ensures
        r.deep_view() == span_location(span.model()),
{
    let file = span.get_str("file_name");
    let line = span.get_u64("line_start");
    let column = span.get_u64("column_start");
    match (file, line, column) {
        (Some(file), Some(line), Some(column)) => Some(
            SourceLocation { file: text::copy(file), line, column },
        ),
        _ => None,
    }
}

fn span_locations(spans: &Vec<Json>) -> (r: Vec<SourceLocation>)
    ensures
        r.deep_view() == locations_from(json::models(spans@), 0),
{
    let ghost all = json::models(spans@);
    let mut out: Vec<SourceLocation> = Vec::new();
    let mut i: usize = 0;
    while i < spans.len()
        invariant
            i <= spans@.len(),
            all == json::models(spans@),
            locations_from(all, 0) =~= out.deep_view() + locations_from(all, i as int),
        decreases spans@.len() - i,
    {
        match span_to_location(&spans[i]) {
            Some(location) => list::push(&mut out, location),
            None => {},
        }
        i += 1;
    }
    assert(out.deep_view() =~= locations_from(all, 0));
    out
}

fn marked_location(spans: &Vec<Json>) -> (r: Option<SourceLocation>)
    ensures
        r.deep_view() == marked_from(json::models(spans@), 0),
{
    let ghost all = json::models(spans@);
    let mut i: usize = 0;
    while i < spans.len()
        invariant
            i <= spans@.len(),
            all == json::models(spans@),
            marked_from(all, 0) == marked_from(all, i as int),
        decreases spans@.len() - i,
    {
        match spans[i].get_bool("is_primary") {
            Some(primary) => {
                if primary {
                    return span_to_location(&spans[i]);
                }
            },
            None => {},
        }
        i += 1;
    }
    None
}

fn same_location(a: &SourceLocation, b: &SourceLocation) -> (r: bool)
    ensures
        r == (a.deep_view() == b.deep_view()),
{
    text::same_text(a.file.as_str(), b.file.as_str()) && a.line == b.line && a.column == b.column
}

fn other_locations(locations: &Vec<SourceLocation>, primary: &SourceLocation) -> (r: Vec<
    SourceLocation,
>)
    ensures
        r.deep_view() == others_from(locations.deep_view(), primary.deep_view(), 0),
{
    let ghost all = locations.deep_view();
    let mut out: Vec<SourceLocation> = Vec::new();
    let mut i: usize = 0;
    while i < locations.len()
        invariant
            i <= locations@.len(),
            all == locations.deep_view(),
            others_from(all, primary.deep_view(), 0) =~= out.deep_view() + others_from(
                all,
                primary.deep_view(),
                i as int,
            ),
        decreases locations@.len() - i,
    {
        if !same_location(&locations[i], primary) {
            list::push(&mut out, locations[i].copy());
        }
        i += 1;
    }
    assert(out.deep_view() =~= others_from(all, primary.deep_view(), 0));
    out
}

/// The diagnostic of a compiler message.
pub fn compiler_message_to_diagnostic(message: &Json) -> (r: Option<Diagnostic>)
    ensures
        r.deep_view() == message_diagnostic(message.model()),
{
    let level = match message.get_str("level") {
        Some(level) => text::copy(level),
        None => {
            return None;
        },
    };
    let text = match message.get_str("message") {
        Some(text) => text::copy(text),
        None => {
            return None;
        },
    };
    let code = match message.get("code") {
        Some(code) => match code.get_str("code") {
            Some(code) => Some(text::copy(code)),
            None => None,
        },
        None => None,
    };
    let none: Vec<Json> = Vec::new();
    assert(json::models(none@) =~= Seq::empty());
    let spans = match message.get_array("spans") {
        Some(spans) => spans,
        None => &none,
    };
    assert(json::models(spans@) == message.model().member_items("spans"@));
    let locations = span_locations(spans);
    let primary = match marked_location(spans) {
        Some(location) => Some(location),
        None => if locations.len() > 0 {
            assert(locations.deep_view()[0] == locations@[0].deep_view());
            Some(locations[0].copy())
        } else {
            None
        },
    };
    let related = match &primary {
        Some(primary) => other_locations(&locations, primary),
        None => locations,
    };
    Some(
        Diagnostic {
            kind: level,
            code,
            message: text,
            primary_location: primary,
            related_locations: related,
        },
    )
}

/// What has been read of structured compiler output.
#[derive(Debug, PartialEq, Eq)]
pub struct CargoScan {
    pub diagnostics: Vec<Diagnostic>,
    pub finished: Option<bool>,
    pub omitted: u64,
}

pub struct CargoScanModel {
    pub diagnostics: Seq<DiagnosticModel>,
    pub finished: Option<bool>,
    pub omitted: nat,
}

impl DeepView for CargoScan {
    type V = CargoScanModel;

    open spec fn deep_view(&self) -> CargoScanModel {
        CargoScanModel {
            diagnostics: self.diagnostics.deep_view(),
            finished: self.finished,
            omitted: self.omitted as nat,
        }
    }
}

/// The diagnostic that a line of structured output carries.
pub open spec fn carried_diagnostic(value: json::JsonModel) -> Option<DiagnosticModel> {
    if value.member_text("reason"@) == Some("compiler-message"@) {
        match value.member("message"@) {
            Some(message) => message_diagnostic(message),
            None => None,
        }
    } else {
        None
    }
}

impl CargoScanModel {
    pub open spec fn begin() -> CargoScanModel {
        CargoScanModel { diagnostics: seq![], finished: None, omitted: 0 }
    }

    /// After one more value: its diagnostic is kept, and a value without one is
    /// counted.
    pub open spec fn after(self, value: json::JsonModel) -> CargoScanModel {
        let finished = if value.member_text("reason"@) == Some("build-finished"@) {
            value.member_boolean("success"@)
        } else {
            self.finished
        };
        match carried_diagnostic(value) {
            Some(d) => CargoScanModel { diagnostics: self.diagnostics.push(d), finished, ..self },
            None => CargoScanModel { omitted: self.omitted + 1, finished, ..self },
        }
    }

    pub open spec fn verdict(self) -> Verdict {
        if exists|i: int|
            0 <= i < self.diagnostics.len() && (#[trigger] self.diagnostics[i]).kind == "error"@ {
            Verdict::Failed
        } else {
            match self.finished {
                Some(success) => if success {
                    Verdict::Passed
                } else {
                    Verdict::Failed
                },
                None => Verdict::Unknown,
            }
        }
    }

    pub open spec fn parsed(self) -> ParsedObservationModel {
        ParsedObservationModel {
            verdict: self.verdict(),
            diagnostics: self.diagnostics,
            tests: None,
            omitted_count: self.omitted,
            completeness: "all structured compiler diagnostics retained"@,
        }
    }
}

pub open spec fn blank(line: Seq<char>) -> bool {
    text::trimmed(line).len() == 0
}

/// The document that a line holds.
pub open spec fn line_document(line: Seq<char>) -> Result<json::JsonModel, Seq<char>> {
    json::json_document(vstd::utf8::encode_utf8(line))
}

/// What structured output says from line `i` on, or the first error in it.
pub open spec fn cargo_from(lines: Seq<Seq<char>>, i: int, scan: CargoScanModel) -> Result<
    CargoScanModel,
    Seq<char>,
>
    decreases lines.len() - i,
{
    if i < 0 || i >= lines.len() {
        Ok(scan)
    } else if blank(lines[i]) {
        cargo_from(lines, i + 1, scan)
    } else {
        match line_document(lines[i]) {
            Ok(value) => cargo_from(lines, i + 1, scan.after(value)),
            Err(message) => Err(message),
        }
    }
}

impl CargoScan {
    pub fn new() -> (r: CargoScan)
        ensures
            r.deep_view() == CargoScanModel::begin(),
    {
        let r = CargoScan { diagnostics: Vec::new(), finished: None, omitted: 0 };
        assert(r.deep_view().diagnostics =~= Seq::empty());
        r
    }

    /// Reads one value of structured output.
    pub fn value(&mut self, value: &Json)
        requires
            old(self).omitted < u64::MAX,
        ensures
            final(self).deep_view() == old(self).deep_view().after(value.model()),
    {
        let reason = value.get_str("reason");
        let is_message = match reason {
            Some(reason) => text::same_text(reason, "compiler-message"),
            None => false,
        };
        let is_finished = match reason {
            Some(reason) => text::same_text(reason, "build-finished"),
            None => false,
        };
        if is_finished {
            self.finished = value.get_bool("success");
        }
        let diagnostic = if is_message {
            match value.get("message") {
                Some(message) => compiler_message_to_diagnostic(message),
                None => None,
            }
        } else {
            None
        };
        match diagnostic {
            Some(d) => list::push(&mut self.diagnostics, d),
            None => {
                self.omitted = self.omitted + 1;
            },
        }
    }

    /// What the output says.
    pub fn finish(self) -> (r: ParsedObservation)
        ensures
            r.deep_view() == self.deep_view().parsed(),
    {
        let ghost all = self.deep_view().diagnostics;
        let mut failed = false;
        let mut i: usize = 0;
        while i < self.diagnostics.len()
            invariant
                i <= self.diagnostics@.len(),
                all == self.deep_view().diagnostics,
                failed == exists|k: int| 0 <= k < i && (#[trigger] all[k]).kind == "error"@,
            decreases self.diagnostics@.len() - i,
        {
            assert(all[i as int] == self.diagnostics@[i as int].deep_view());
            if text::same_text(self.diagnostics[i].kind.as_str(), "error") {
                failed = true;
            }
            i += 1;
        }
        let verdict = if failed {
            Verdict::Failed
        } else {
            match self.finished {
                Some(success) => if success {
                    Verdict::Passed
                } else {
                    Verdict::Failed
                },
                None => Verdict::Unknown,
            }
        };
        ParsedObservation {
            verdict,
            diagnostics: self.diagnostics,
            tests: None,
            omitted_count: self.omitted,
            completeness: text::copy("all structured compiler diagnostics retained"),
        }
    }
}

fn parse_cargo_json(output: &str) -> (r: Result<ParsedObservation, String>)
    ensures
        match (r, cargo_from(text::lines_of(output@), 0, CargoScanModel::begin())) {
            (Ok(parsed), Ok(scan)) => parsed.deep_view() == scan.parsed(),
            (Err(message), Err(m)) => message@ == m,
            _ => false,
        },
{
    let chars = text::to_chars(output);
    let lines = text::lines(chars.as_slice());
    let ghost all = text::views(lines@);
    let mut scan = CargoScan::new();
    let count: usize = lines.len();
    let mut i: usize = 0;
    while i < count
        invariant
            i <= count,
            count == lines@.len(),
            all == text::views(lines@),
            all == text::lines_of(output@),
            scan.omitted <= i,
            cargo_from(all, 0, CargoScanModel::begin()) == cargo_from(
                all,
                i as int,
                scan.deep_view(),
            ),
        decreases count - i,
    {
        assert(all[i as int] == lines@[i as int]@);
        if text::trim(lines[i]).len() != 0 {
            let line = text::to_text(lines[i]);
            match json::parse(line.as_str().as_bytes()) {
                Ok(value) => {
                    let ghost before = scan.deep_view();
                    scan.value(&value);
                    assert(scan.deep_view().omitted <= before.omitted + 1);
                },
                Err(message) => {
                    return Err(message);
                },
            }
        }
        i += 1;
    }
    Ok(scan.finish())
}

/// The name in `---- name stdout ----`.
pub open spec fn header_in(line: Seq<char>) -> Option<Seq<char>> {
    match text::after_prefix(text::trimmed(line), "---- "@) {
        Some(rest) => text::before_suffix(rest, " stdout ----"@),
        None => None,
    }
}

/// The name in `test name ... FAILED`.
pub open spec fn failed_in(line: Seq<char>) -> Option<Seq<char>> {
    match text::after_prefix(text::trimmed(line), "test "@) {
        Some(rest) => text::before_suffix(rest, " ... FAILED"@),
        None => None,
    }
}

/// The place that `file:line:column` names.
pub open spec fn place_in(value: Seq<char>) -> Option<SourceLocationModel> {
    match text::cut_last(value, ":"@) {
        Some((front, column)) => match text::cut_last(front, ":"@) {
            Some((file, line)) => match (text::number_of(line), text::number_of(column)) {
                (Some(line), Some(column)) => Some(SourceLocationModel { file, line, column }),
                _ => None,
            },
            None => None,
        },
        None => None,
    }
}

/// What stands behind `panicked at `, without the white space around it.
pub open spec fn panic_details(line: Seq<char>) -> Option<Seq<char>> {
    match text::cut(line, "panicked at "@) {
        Some((_, details)) => Some(text::trimmed(details)),
        None => None,
    }
}

/// The message and the place in `panicked at 'message', place`.
pub open spec fn inline_panic_in(line: Seq<char>) -> Option<
    (Seq<char>, Option<SourceLocationModel>),
> {
    match panic_details(line) {
        Some(details) => match text::cut_last(text::trimmed_of(details, '\''), ", "@) {
            Some((message, place)) => Some((message, place_in(place))),
            None => None,
        },
        None => None,
    }
}

/// The place in `panicked at place:`.
pub open spec fn panic_place_in(line: Seq<char>) -> Option<SourceLocationModel> {
    match panic_details(line) {
        Some(details) => match text::before_suffix(details, ":"@) {
            Some(place) => place_in(place),
            None => None,
        },
        None => None,
    }
}

/// The number before ` name;` in a summary.
pub open spec fn count_in(line: Seq<char>, name: Seq<char>) -> Option<u64> {
    match text::cut(line, seq![' '] + name + seq![';']) {
        Some((before, _)) => {
            let words = text::words_of(before);
            if words.len() > 0 {
                text::number_of(words.last())
            } else {
                None
            }
        },
        None => None,
    }
}

/// The counts of a `test result:` line.
pub open spec fn summary_in(line: Seq<char>) -> Option<TestSummaryModel> {
    let line = text::trimmed(line);
    if text::begins(line, "test result:"@) {
        Some(
            TestSummaryModel {
                passed: as_count(count_in(line, "passed"@)),
                failed: as_count(count_in(line, "failed"@)),
                ignored: as_count(count_in(line, "ignored"@)),
            },
        )
    } else {
        None
    }
}

pub open spec fn merged_count(left: Option<nat>, right: Option<nat>) -> Option<nat> {
    match (left, right) {
        (Some(left), Some(right)) => Some(left + right),
        (Some(value), None) => Some(value),
        (None, right) => right,
    }
}

pub open spec fn merged(left: TestSummaryModel, right: TestSummaryModel) -> TestSummaryModel {
    TestSummaryModel {
        passed: merged_count(left.passed, right.passed),
        failed: merged_count(left.failed, right.failed),
        ignored: merged_count(left.ignored, right.ignored),
    }
}

pub open spec fn fits_count(n: Option<nat>) -> bool {
    n matches Some(n) ==> n <= u64::MAX
}

impl TestSummaryModel {
    pub open spec fn fits(self) -> bool {
        fits_count(self.passed) && fits_count(self.failed) && fits_count(self.ignored)
    }
}

/// The first diagnostic from `i` on that is the bare failure of a test.
pub open spec fn failure_from(diagnostics: Seq<DiagnosticModel>, test: Seq<char>, i: int) -> Option<
    int,
>
    decreases diagnostics.len() - i,
{
    if i < 0 || i >= diagnostics.len() {
        None
    } else if diagnostics[i].kind == "test_failure"@ && diagnostics[i].message == test {
        Some(i)
    } else {
        failure_from(diagnostics, test, i + 1)
    }
}

pub open spec fn bare(
    kind: Seq<char>,
    message: Seq<char>,
    place: Option<SourceLocationModel>,
) -> DiagnosticModel {
    DiagnosticModel {
        kind,
        code: None,
        message,
        primary_location: place,
        related_locations: seq![],
    }
}

/// The diagnostics with a panic: it completes the bare failure of its test where
/// there is one, and is a diagnostic of its own otherwise.
pub open spec fn with_panic(
    diagnostics: Seq<DiagnosticModel>,
    test: Option<Seq<char>>,
    message: Seq<char>,
    place: Option<SourceLocationModel>,
) -> Seq<DiagnosticModel> {
    match test {
        Some(test) => {
            let named = test + ": "@ + message;
            match failure_from(diagnostics, test, 0) {
                Some(i) => diagnostics.update(
                    i,
                    DiagnosticModel {
                        kind: "test_panic"@,
                        message: named,
                        primary_location: place,
                        ..diagnostics[i]
                    },
                ),
                None => diagnostics.push(bare("test_panic"@, named, place)),
            }
        },
        None => diagnostics.push(bare("test_panic"@, message, place)),
    }
}

/// What has been read of test output.
#[derive(Debug, PartialEq, Eq)]
pub struct TestScan {
    pub diagnostics: Vec<Diagnostic>,
    pub summary: Option<TestSummary>,
    /// The test whose output is being read.
    pub current: Option<String>,
    /// The place of a panic whose message is to follow.
    pub pending: Option<SourceLocation>,
    pub omitted: u64,
}

pub struct TestScanModel {
    pub diagnostics: Seq<DiagnosticModel>,
    pub summary: Option<TestSummaryModel>,
    pub current: Option<Seq<char>>,
    pub pending: Option<SourceLocationModel>,
    pub omitted: nat,
}

impl DeepView for TestScan {
    type V = TestScanModel;

    open spec fn deep_view(&self) -> TestScanModel {
        TestScanModel {
            diagnostics: self.diagnostics.deep_view(),
            summary: self.summary.deep_view(),
            current: self.current.deep_view(),
            pending: self.pending.deep_view(),
            omitted: self.omitted as nat,
        }
    }
}

impl TestScanModel {
    pub open spec fn begin() -> TestScanModel {
        TestScanModel {
            diagnostics: seq![],
            summary: None,
            current: None,
            pending: None,
            omitted: 0,
        }
    }

    pub open spec fn after_panic(
        self,
        message: Seq<char>,
        place: Option<SourceLocationModel>,
    ) -> TestScanModel {
        TestScanModel {
            diagnostics: with_panic(self.diagnostics, self.current, message, place),
            ..self
        }
    }

    /// After a line that is no part of a panic.
    pub open spec fn after_plain(self, line: Seq<char>) -> TestScanModel {
        match summary_in(line) {
            Some(summary) => TestScanModel {
                summary: Some(
                    match self.summary {
                        Some(current) => merged(current, summary),
                        None => summary,
                    },
                ),
                ..self
            },
            None => if blank(line) {
                self
            } else {
                TestScanModel { omitted: self.omitted + 1, ..self }
            },
        }
    }

    /// After one more line.
    pub open spec fn after(self, line: Seq<char>) -> TestScanModel {
        match failed_in(line) {
            Some(test) => TestScanModel {
                diagnostics: self.diagnostics.push(bare("test_failure"@, test, None)),
                omitted: self.omitted + 1,
                ..self
            },
            None => match header_in(line) {
                Some(test) => TestScanModel {
                    current: Some(test),
                    omitted: self.omitted + 1,
                    ..self
                },
                None => match inline_panic_in(line) {
                    Some((message, place)) => self.after_panic(message, place),
                    None => match panic_place_in(line) {
                        Some(place) => TestScanModel { pending: Some(place), ..self },
                        None => {
                            let next = TestScanModel { pending: None, ..self };
                            if self.pending is Some && !blank(line) {
                                next.after_panic(text::trimmed(line), self.pending)
                            } else {
                                next.after_plain(line)
                            }
                        },
                    },
                },
            },
        }
    }

    pub open spec fn fits(self) -> bool {
        self.summary matches Some(summary) ==> summary.fits()
    }

    pub open spec fn verdict(self) -> Verdict {
        match self.summary {
            Some(summary) => if summary.failed matches Some(n) && n > 0 {
                Verdict::Failed
            } else {
                Verdict::Passed
            },
            None => if self.diagnostics.len() > 0 {
                Verdict::Failed
            } else {
                Verdict::Unknown
            },
        }
    }

    pub open spec fn parsed(self) -> ParsedObservationModel {
        ParsedObservationModel {
            verdict: self.verdict(),
            diagnostics: self.diagnostics,
            tests: self.summary,
            omitted_count: self.omitted,
            completeness: "all detected test failures and parsed test summary retained"@,
        }
    }
}

/// What test output says from line `i` on; `None` where counts do not fit.
pub open spec fn test_text_from(lines: Seq<Seq<char>>, i: int, scan: TestScanModel) -> Option<
    TestScanModel,
>
    decreases lines.len() - i,
{
    if i < 0 || i >= lines.len() {
        Some(scan)
    } else if !scan.after(lines[i]).fits() {
        None
    } else {
        test_text_from(lines, i + 1, scan.after(lines[i]))
    }
}

fn failed_test_header(line: &[char]) -> (r: Option<String>)
    ensures
        r.deep_view() == header_in(line@),
{
    match text::strip_prefix(text::trim(line), "---- ") {
        Some(rest) => match text::strip_suffix(rest, " stdout ----") {
            Some(name) => Some(text::to_text(name)),
            None => None,
        },
        None => None,
    }
}

fn failed_test_line(line: &[char]) -> (r: Option<String>)
    ensures
        r.deep_view() == failed_in(line@),
{
    match text::strip_prefix(text::trim(line), "test ") {
        Some(rest) => match text::strip_suffix(rest, " ... FAILED") {
            Some(name) => Some(text::to_text(name)),
            None => None,
        },
        None => None,
    }
}

fn parse_location(value: &[char]) -> (r: Option<SourceLocation>)
    ensures
        r.deep_view() == place_in(value@),
{
    match text::split_once_last(value, ":") {
        Some((front, column)) => match text::split_once_last(front, ":") {
            Some((file, line)) => match (text::parse_number(line), text::parse_number(column)) {
                (Some(line), Some(column)) => Some(
                    SourceLocation { file: text::to_text(file), line, column },
                ),
                _ => None,
            },
            None => None,
        },
        None => None,
    }
}

fn details_of(line: &[char]) -> (r: Option<&[char]>)
    ensures
        match r {
            Some(details) => panic_details(line@) == Some(details@),
            None => panic_details(line@) is None,
        },
{
    match text::split_once(line, "panicked at ") {
        Some((_, details)) => Some(text::trim(details)),
        None => None,
    }
}

fn inline_panic_details(line: &[char]) -> (r: Option<(String, Option<SourceLocation>)>)
    ensures
        r.deep_view() == inline_panic_in(line@),
{
    match details_of(line) {
        Some(details) => match text::split_once_last(text::trim_of(details, '\''), ", ") {
            Some((message, place)) => Some((text::to_text(message), parse_location(place))),
            None => None,
        },
        None => None,
    }
}

fn panic_location(line: &[char]) -> (r: Option<SourceLocation>)
    ensures
        r.deep_view() == panic_place_in(line@),
{
    match details_of(line) {
        Some(details) => match text::strip_suffix(details, ":") {
            Some(place) => parse_location(place),
            None => None,
        },
        None => None,
    }
}

fn summary_count(line: &[char], name: &str) -> (r: Option<u64>)
    ensures
        r == count_in(line@, name@),
{
    let mut marker: Vec<char> = Vec::new();
    marker.push(' ');
    text::append(&mut marker, text::to_chars(name).as_slice());
    marker.push(';');
    assert(marker@ =~= seq![' '] + name@ + seq![';']);
    match text::find(line, marker.as_slice()) {
        Some(i) => {
            let words = text::words(vstd::slice::slice_subrange(line, 0, i));
            let ghost all = text::views(words@);
            if words.len() > 0 {
                assert(all.last() == words@[words@.len() - 1]@);
                text::parse_number(words[words.len() - 1])
            } else {
                None
            }
        },
        None => None,
    }
}

fn parse_test_summary(line: &[char]) -> (r: Option<TestSummary>)
    ensures
        r.deep_view() == summary_in(line@),
{
    let line = text::trim(line);
    if !text::starts_with(line, "test result:") {
        return None;
    }
    Some(
        TestSummary {
            passed: summary_count(line, "passed"),
            failed: summary_count(line, "failed"),
            ignored: summary_count(line, "ignored"),
        },
    )
}

/// The sum of two counts, either of which may be missing; an error where it does
/// not fit.
fn merge_test_count(left: Option<u64>, right: Option<u64>) -> (r: Result<Option<u64>, ()>)
    ensures
        match r {
            Ok(sum) => as_count(sum) == merged_count(as_count(left), as_count(right)),
            Err(_) => !fits_count(merged_count(as_count(left), as_count(right))),
        },
{
    match (left, right) {
        (Some(left), Some(right)) => match left.checked_add(right) {
            Some(sum) => Ok(Some(sum)),
            None => Err(()),
        },
        (Some(value), None) => Ok(Some(value)),
        (None, right) => Ok(right),
    }
}

fn merge_test_summaries(left: &TestSummary, right: &TestSummary) -> (r: Result<TestSummary, ()>)
    ensures
        match r {
            Ok(sum) => sum.deep_view() == merged(left.deep_view(), right.deep_view()),
            Err(_) => !merged(left.deep_view(), right.deep_view()).fits(),
        },
{
    let passed = match merge_test_count(left.passed, right.passed) {
        Ok(sum) => sum,
        Err(_) => {
            return Err(());
        },
    };
    let failed = match merge_test_count(left.failed, right.failed) {
        Ok(sum) => sum,
        Err(_) => {
            return Err(());
        },
    };
    let ignored = match merge_test_count(left.ignored, right.ignored) {
        Ok(sum) => sum,
        Err(_) => {
            return Err(());
        },
    };
    Ok(TestSummary { passed, failed, ignored })
}

fn find_failure(diagnostics: &Vec<Diagnostic>, test: &str) -> (r: Option<usize>)
    ensures
        match r {
            Some(i) => i < diagnostics@.len() && failure_from(diagnostics.deep_view(), test@, 0)
                == Some(i as int),
            None => failure_from(diagnostics.deep_view(), test@, 0) is None,
        },
{
    let ghost all = diagnostics.deep_view();
    let mut i: usize = 0;
    while i < diagnostics.len()
        invariant
            i <= diagnostics@.len(),
            all == diagnostics.deep_view(),
            failure_from(all, test@, 0) == failure_from(all, test@, i as int),
        decreases diagnostics@.len() - i,
    {
        assert(all[i as int] == diagnostics@[i as int].deep_view());
        if text::same_text(diagnostics[i].kind.as_str(), "test_failure") && text::same_text(
            diagnostics[i].message.as_str(),
            test,
        ) {
            return Some(i);
        }
        i += 1;
    }
    None
}

fn bare_diagnostic(kind: &str, message: String, place: Option<SourceLocation>) -> (r: Diagnostic)
    ensures
        r.deep_view() == bare(kind@, message@, place.deep_view()),
{
    let related_locations: Vec<SourceLocation> = Vec::new();
    assert(related_locations.deep_view() =~= Seq::empty());
    Diagnostic {
        kind: text::copy(kind),
        code: None,
        message,
        primary_location: place,
        related_locations,
    }
}

fn record_test_panic(
    diagnostics: &mut Vec<Diagnostic>,
    test: Option<&str>,
    message: String,
    location: Option<SourceLocation>,
)
    ensures
        final(diagnostics).deep_view() == with_panic(
            old(diagnostics).deep_view(),
            json::text_of(test),
            message@,
            location.deep_view(),
        ),
{
    match test {
        Some(test) => {
            let start = text::concat(test, ": ");
            let named = text::concat(start.as_str(), message.as_str());
            match find_failure(diagnostics, test) {
                Some(i) => {
                    let ghost before = diagnostics@;
                    let mut changed = bare_diagnostic("test_panic", named, location);
                    std::mem::swap(&mut changed.code, &mut diagnostics[i].code);
                    std::mem::swap(
                        &mut changed.related_locations,
                        &mut diagnostics[i].related_locations,
                    );
                    let ghost d = changed.deep_view();
                    diagnostics.set(i, changed);
                    assert(diagnostics.deep_view() =~= old(diagnostics).deep_view().update(
                        i as int,
                        d,
                    ));
                },
                None => list::push(diagnostics, bare_diagnostic("test_panic", named, location)),
            }
        },
        None => list::push(diagnostics, bare_diagnostic("test_panic", message, location)),
    }
}

impl TestScan {
    pub fn new() -> (r: TestScan)
        ensures
            r.deep_view() == TestScanModel::begin(),
    {
        let r = TestScan {
            diagnostics: Vec::new(),
            summary: None,
            current: None,
            pending: None,
            omitted: 0,
        };
        assert(r.deep_view().diagnostics =~= Seq::empty());
        r
    }

    fn panic(&mut self, message: String, place: Option<SourceLocation>)
        ensures
            final(self).deep_view() == old(self).deep_view().after_panic(
                message@,
                place.deep_view(),
            ),
    {
        let test = match &self.current {
            Some(test) => Some(test.as_str()),
            None => None,
        };
        record_test_panic(&mut self.diagnostics, test, message, place);
    }

    /// Reads one line; an error where counts do not fit.
    pub fn line(&mut self, line: &[char]) -> (r: Result<(), NormalizeError>)
        requires
            old(self).omitted < u64::MAX,
            old(self).deep_view().fits(),
        ensures
            match r {
                Ok(_) => final(self).deep_view() == old(self).deep_view().after(line@)
                    && final(self).deep_view().fits(),
                Err(error) => error.deep_view() == NormalizeErrorModel::CountOverflow && !old(
                    self,
                ).deep_view().after(line@).fits(),
            },
    {
        match failed_test_line(line) {
            Some(test) => {
                list::push(&mut self.diagnostics, bare_diagnostic("test_failure", test, None));
                self.omitted = self.omitted + 1;
                return Ok(());
            },
            None => {},
        }
        match failed_test_header(line) {
            Some(test) => {
                self.current = Some(test);
                self.omitted = self.omitted + 1;
                return Ok(());
            },
            None => {},
        }
        match inline_panic_details(line) {
            Some((message, place)) => {
                self.panic(message, place);
                return Ok(());
            },
            None => {},
        }
        match panic_location(line) {
            Some(place) => {
                self.pending = Some(place);
                return Ok(());
            },
            None => {},
        }
        let trimmed = text::trim(line);
        match self.pending.take() {
            Some(place) => {
                if trimmed.len() != 0 {
                    self.panic(text::to_text(trimmed), Some(place));
                    return Ok(());
                }
            },
            None => {},
        }
        match parse_test_summary(line) {
            Some(parsed) => {
                match &self.summary {
                    Some(current) => {
                        match merge_test_summaries(current, &parsed) {
                            Ok(sum) => {
                                self.summary = Some(sum);
                            },
                            Err(_) => {
                                return Err(NormalizeError::CountOverflow);
                            },
                        }
                    },
                    None => {
                        self.summary = Some(parsed);
                    },
                }
                return Ok(());
            },
            None => {},
        }
        if trimmed.len() != 0 {
            self.omitted = self.omitted + 1;
        }
        Ok(())
    }

    /// What the output says.
    pub fn finish(self) -> (r: ParsedObservation)
        ensures
            r.deep_view() == self.deep_view().parsed(),
    {
        let verdict = match &self.summary {
            Some(summary) => match summary.failed {
                Some(n) => if n > 0 {
                    Verdict::Failed
                } else {
                    Verdict::Passed
                },
                None => Verdict::Passed,
            },
            None => if self.diagnostics.len() > 0 {
                Verdict::Failed
            } else {
                Verdict::Unknown
            },
        };
        ParsedObservation {
            verdict,
            diagnostics: self.diagnostics,
            tests: self.summary,
            omitted_count: self.omitted,
            completeness: text::copy("all detected test failures and parsed test summary retained"),
        }
    }
}

/// Reads test output.
pub fn parse_cargo_test_text(output: &str) -> (r: Result<ParsedObservation, NormalizeError>)
    ensures
        match (r, test_text_from(text::lines_of(output@), 0, TestScanModel::begin())) {
            (Ok(parsed), Some(scan)) => parsed.deep_view() == scan.parsed(),
            (Err(error), None) => error.deep_view() == NormalizeErrorModel::CountOverflow,
            _ => false,
        },
{
    let chars = text::to_chars(output);
    let lines = text::lines(chars.as_slice());
    let ghost all = text::views(lines@);
    let mut scan = TestScan::new();
    let count: usize = lines.len();
    let mut i: usize = 0;
    while i < count
        invariant
            i <= count,
            count == lines@.len(),
            all == text::views(lines@),
            all == text::lines_of(output@),
            scan.omitted <= i,
            scan.deep_view().fits(),
            test_text_from(all, 0, TestScanModel::begin()) == test_text_from(
                all,
                i as int,
                scan.deep_view(),
            ),
        decreases count - i,
    {
        assert(all[i as int] == lines@[i as int]@);
        let ghost before = scan.deep_view();
        match scan.line(lines[i]) {
            Ok(_) => {},
            Err(error) => {
                return Err(error);
            },
        }
        assert(scan.deep_view().omitted <= before.omitted + 1);
        i += 1;
    }
    Ok(scan.finish())
}

/// What output of the given kind says.
pub open spec fn parsed_for(kind: InputKind, output: Seq<char>) -> Result<
    ParsedObservationModel,
    NormalizeErrorModel,
> {
    match kind {
        InputKind::CargoJson => match cargo_from(
            text::lines_of(output),
            0,
            CargoScanModel::begin(),
        ) {
            Ok(scan) => Ok(scan.parsed()),
            Err(message) => Err(NormalizeErrorModel::Json(message)),
        },
        InputKind::CargoTestText => match test_text_from(
            text::lines_of(output),
            0,
            TestScanModel::begin(),
        ) {
            Some(scan) => Ok(scan.parsed()),
            None => Err(NormalizeErrorModel::CountOverflow),
        },
    }
}

/// How raw output is named once it is kept: by its digest.
pub open spec fn artifact_of(raw: Seq<u8>) -> RawArtifactModel {
    RawArtifactModel {
        uri: "artifact://observation/"@ + digest::sha256_hex(raw) + "/raw-output"@,
        sha256: digest::sha256_hex(raw),
        bytes: raw.len(),
    }
}

/// The pack of output of the given kind.
pub open spec fn pack_of(kind: InputKind, raw: Seq<u8>) -> Result<
    ObservationPackModel,
    NormalizeErrorModel,
> {
    match parsed_for(kind, text::utf8_lossy(raw)) {
        Ok(parsed) => Ok(
            ObservationPackModel {
                schema: "cabal.observation_pack.v1"@,
                operation: kind.operation_name(),
                verdict: parsed.verdict,
                diagnostics: parsed.diagnostics,
                tests: parsed.tests,
                omitted_sections: OmittedSectionsModel {
                    count: parsed.omitted_count,
                    reason: "non-diagnostic build and test progress"@,
                },
                completeness: parsed.completeness,
                raw_artifact: artifact_of(raw),
            },
        ),
        Err(error) => Err(error),
    }
}

/// How raw output is named once it is kept.
pub fn raw_artifact(raw: &[u8]) -> (r: RawArtifact)
    ensures
        r.deep_view() == artifact_of(raw@),
{
    let hash = digest::sha256_text(raw);
    let start = text::concat("artifact://observation/", hash.as_str());
    let uri = text::concat(start.as_str(), "/raw-output");
    RawArtifact { uri, sha256: hash, bytes: raw.len() as u64 }
}

/// Normalizes output into a pack.
pub fn normalize_bytes(kind: InputKind, raw: &[u8]) -> (r: Result<ObservationPack, NormalizeError>)
    ensures
        match (r, pack_of(kind, raw@)) {
            (Ok(pack), Ok(p)) => pack.deep_view() == p,
            (Err(error), Err(e)) => error.deep_view() == e,
            _ => false,
        },
{
    let output = text::lossy(raw);
    let parsed = match kind {
        InputKind::CargoJson => match parse_cargo_json(output.as_str()) {
            Ok(parsed) => parsed,
            Err(message) => {
                return Err(NormalizeError::Json(message));
            },
        },
        InputKind::CargoTestText => match parse_cargo_test_text(output.as_str()) {
            Ok(parsed) => parsed,
            Err(error) => {
                return Err(error);
            },
        },
    };
    Ok(
        ObservationPack {
            schema: text::copy("cabal.observation_pack.v1"),
            operation: kind.operation(),
            verdict: parsed.verdict,
            diagnostics: parsed.diagnostics,
            tests: parsed.tests,
            omitted_sections: OmittedSections {
                count: parsed.omitted_count,
                reason: text::copy("non-diagnostic build and test progress"),
            },
            completeness: parsed.completeness,
            raw_artifact: raw_artifact(raw),
        },
    )
}

/// Where raw output with the given digest is kept below a root.
pub open spec fn artifact_place(root: Seq<char>, hash: Seq<char>) -> Seq<char> {
    path::joined(path::joined(root, hash), "raw-output"@)
}

pub fn artifact_path(root: &str, hash: &str) -> (r: String)
    ensures
        r@ == artifact_place(root@, hash@),
{
    let directory = path::join(root, hash);
    path::join(directory.as_str(), "raw-output")
}

/// Bytes that are to be kept, and where.
#[derive(Debug, PartialEq, Eq)]
pub struct ArtifactWrite<'a> {
    pub directory: String,
    pub path: String,
    pub raw: &'a [u8],
}

/// What an `ArtifactWrite` says.
pub struct ArtifactWriteModel {
    pub directory: Seq<char>,
    pub path: Seq<char>,
    pub raw: Seq<u8>,
}

impl<'a> DeepView for ArtifactWrite<'a> {
    type V = ArtifactWriteModel;

    open spec fn deep_view(&self) -> ArtifactWriteModel {
        ArtifactWriteModel { directory: self.directory@, path: self.path@, raw: self.raw@ }
    }
}

/// Raw output is kept below a root, as it is, at the place that its digest names.
pub open spec fn write_of(raw: Seq<u8>, root: Seq<char>) -> ArtifactWriteModel {
    ArtifactWriteModel {
        directory: path::joined(root, digest::sha256_hex(raw)),
        path: artifact_place(root, digest::sha256_hex(raw)),
        raw,
    }
}

/// How raw output is to be kept, which is before it is normalized.
pub fn artifact_write<'a>(raw: &'a [u8], root: &str) -> (r: ArtifactWrite<'a>)
    ensures
        r.deep_view() == write_of(raw@, root@),
{
    let hash = digest::sha256_text(raw);
    let directory = path::join(root, hash.as_str());
    ArtifactWrite { directory, path: artifact_path(root, hash.as_str()), raw }
}

impl ArtifactWriteModel {
    /// The files that there are once the bytes have been kept, each with its bytes.
    pub open spec fn carried_out(self, files: Map<Seq<char>, Seq<u8>>) -> Map<Seq<char>, Seq<u8>> {
        files.insert(self.path, self.raw)
    }
}

/// The diagnostics that the lines from `i` on carry, one for each line that
/// carries one.
pub open spec fn carried_from(lines: Seq<Seq<char>>, i: int) -> Seq<DiagnosticModel>
    decreases lines.len() - i,
{
    if i < 0 || i >= lines.len() {
        seq![]
    } else if blank(lines[i]) {
        carried_from(lines, i + 1)
    } else {
        match line_document(lines[i]) {
            Ok(value) => match carried_diagnostic(value) {
                Some(d) => seq![d] + carried_from(lines, i + 1),
                None => carried_from(lines, i + 1),
            },
            Err(_) => carried_from(lines, i + 1),
        }
    }
}

/// How many of the lines from `i` on are not blank.
pub open spec fn filled_from(lines: Seq<Seq<char>>, i: int) -> nat
    decreases lines.len() - i,
{
    if i < 0 || i >= lines.len() {
        0
    } else {
        (if blank(lines[i]) {
            0nat
        } else {
            1nat
        }) + filled_from(lines, i + 1)
    }
}

proof fn cargo_keeps_from(lines: Seq<Seq<char>>, i: int, scan: CargoScanModel)
    ensures
        cargo_from(lines, i, scan) matches Ok(end) ==> {
            &&& end.diagnostics == scan.diagnostics + carried_from(lines, i)
            &&& end.diagnostics.len() + end.omitted == scan.diagnostics.len() + scan.omitted
                + filled_from(lines, i)
        },
    decreases lines.len() - i,
{
    if 0 <= i < lines.len() {
        if blank(lines[i]) {
            cargo_keeps_from(lines, i + 1, scan);
        } else {
            match line_document(lines[i]) {
                Ok(value) => {
                    cargo_keeps_from(lines, i + 1, scan.after(value));
                    match carried_diagnostic(value) {
                        Some(d) => {
                            assert(scan.diagnostics.push(d) + carried_from(lines, i + 1)
                                =~= scan.diagnostics + (seq![d] + carried_from(lines, i + 1)));
                        },
                        None => {},
                    }
                },
                Err(_) => {},
            }
        }
    } else {
        assert(scan.diagnostics + carried_from(lines, i) =~= scan.diagnostics);
    }
}

/// Structured output loses no diagnostic: the pack holds those that the lines
/// carry, in their order, and every other line that is not blank is counted.
pub proof fn structured_diagnostics_are_retained(raw: Seq<u8>)
    ensures
        pack_of(InputKind::CargoJson, raw) matches Ok(pack) ==> {
            let lines = text::lines_of(text::utf8_lossy(raw));
            &&& pack.diagnostics == carried_from(lines, 0)
            &&& pack.diagnostics.len() + pack.omitted_sections.count == filled_from(lines, 0)
        },
{
    let lines = text::lines_of(text::utf8_lossy(raw));
    cargo_keeps_from(lines, 0, CargoScanModel::begin());
    assert(Seq::<DiagnosticModel>::empty() + carried_from(lines, 0) =~= carried_from(lines, 0));
}

/// A diagnostic reports the failure of a test: the bare failure, or a panic
/// under the name of the test.
pub open spec fn reports(d: DiagnosticModel, test: Seq<char>) -> bool {
    ||| d.kind == "test_failure"@ && d.message == test
    ||| d.kind == "test_panic"@ && text::begins(d.message, test + ": "@)
}

pub open spec fn reported(diagnostics: Seq<DiagnosticModel>, test: Seq<char>) -> bool {
    exists|i: int| 0 <= i < diagnostics.len() && #[trigger] reports(diagnostics[i], test)
}

proof fn found_failure(diagnostics: Seq<DiagnosticModel>, test: Seq<char>, i: int)
    requires
        0 <= i,
    ensures
        failure_from(diagnostics, test, i) matches Some(k) ==> {
            &&& i <= k < diagnostics.len()
            &&& diagnostics[k].kind == "test_failure"@
            &&& diagnostics[k].message == test
        },
    decreases diagnostics.len() - i,
{
    if i < diagnostics.len() {
        found_failure(diagnostics, test, i + 1);
    }
}

proof fn pushed_stays_reported(
    diagnostics: Seq<DiagnosticModel>,
    d: DiagnosticModel,
    test: Seq<char>,
)
    ensures
        reported(diagnostics, test) || reports(d, test) ==> reported(diagnostics.push(d), test),
{
    let next = diagnostics.push(d);
    if reported(diagnostics, test) {
        let i = choose|i: int|
            0 <= i < diagnostics.len() && #[trigger] reports(diagnostics[i], test);
        assert(reports(next[i], test));
    }
    if reports(d, test) {
        assert(reports(next[diagnostics.len() as int], test));
    }
}

proof fn panic_stays_reported(
    diagnostics: Seq<DiagnosticModel>,
    current: Option<Seq<char>>,
    message: Seq<char>,
    place: Option<SourceLocationModel>,
    test: Seq<char>,
)
    requires
        reported(diagnostics, test),
    ensures
        reported(with_panic(diagnostics, current, message, place), test),
{
    match current {
        Some(name) => {
            let named = name + ": "@ + message;
            found_failure(diagnostics, name, 0);
            match failure_from(diagnostics, name, 0) {
                Some(k) => {
                    let next = with_panic(diagnostics, current, message, place);
                    let i = choose|i: int|
                        0 <= i < diagnostics.len() && #[trigger] reports(diagnostics[i], test);
                    if i == k {
                        reveal_strlit("test_failure");
                        reveal_strlit("test_panic");
                        assert("test_failure"@.len() != "test_panic"@.len());
                        assert(test == name);
                        let start = test + ": "@;
                        assert(named.subrange(0, start.len() as int) =~= start);
                        assert(reports(next[i], test));
                    } else {
                        assert(reports(next[i], test));
                    }
                },
                None => {
                    pushed_stays_reported(
                        diagnostics,
                        bare("test_panic"@, named, place),
                        test,
                    );
                },
            }
        },
        None => {
            pushed_stays_reported(diagnostics, bare("test_panic"@, message, place), test);
        },
    }
}

proof fn line_keeps_reported(scan: TestScanModel, line: Seq<char>, test: Seq<char>)
    requires
        reported(scan.diagnostics, test) || failed_in(line) == Some(test),
    ensures
        reported(scan.after(line).diagnostics, test),
{
    match failed_in(line) {
        Some(failed) => {
            pushed_stays_reported(
                scan.diagnostics,
                bare("test_failure"@, failed, None),
                test,
            );
        },
        None => {
            match inline_panic_in(line) {
                Some((message, place)) => {
                    panic_stays_reported(scan.diagnostics, scan.current, message, place, test);
                },
                None => {
                    panic_stays_reported(
                        scan.diagnostics,
                        scan.current,
                        text::trimmed(line),
                        scan.pending,
                        test,
                    );
                },
            }
        },
    }
}

proof fn lines_keep_reported(
    lines: Seq<Seq<char>>,
    i: int,
    scan: TestScanModel,
    k: int,
    test: Seq<char>,
)
    requires
        0 <= i,
        reported(scan.diagnostics, test) || (i <= k < lines.len() && failed_in(lines[k]) == Some(
            test,
        )),
    ensures
        test_text_from(lines, i, scan) matches Some(end) ==> reported(end.diagnostics, test),
    decreases lines.len() - i,
{
    if i < lines.len() {
        if reported(scan.diagnostics, test) || k == i {
            line_keeps_reported(scan, lines[i], test);
        }
        lines_keep_reported(lines, i + 1, scan.after(lines[i]), k, test);
    }
}

/// Test output loses no failure: a test that any line reports as failed has a
/// diagnostic of its own name in the pack.
pub proof fn failed_tests_are_retained(raw: Seq<u8>, k: int, test: Seq<char>)
    requires
        0 <= k < text::lines_of(text::utf8_lossy(raw)).len(),
        failed_in(text::lines_of(text::utf8_lossy(raw))[k]) == Some(test),
    ensures
        pack_of(InputKind::CargoTestText, raw) matches Ok(pack) ==> reported(
            pack.diagnostics,
            test,
        ),
{
    lines_keep_reported(
        text::lines_of(text::utf8_lossy(raw)),
        0,
        TestScanModel::begin(),
        k,
        test,
    );
}

/// The artifact that a pack names holds exactly the bytes that were normalized, and as many as
/// the pack says; keeping it leaves every other file as it is.
pub proof fn artifacts_hold_what_was_normalized(
    kind: InputKind,
    raw: Seq<u8>,
    root: Seq<char>,
    files: Map<Seq<char>, Seq<u8>>,
)
    ensures
        ({
            let kept = write_of(raw, root).carried_out(files);
            pack_of(kind, raw) matches Ok(pack) ==> {
                let place = artifact_place(root, pack.raw_artifact.sha256);
                &&& kept.contains_key(place)
                &&& kept[place] == raw
                &&& pack.raw_artifact.bytes == raw.len()
                &&& pack.raw_artifact.sha256 == digest::sha256_hex(raw)
                &&& kept.remove(place) == files.remove(place)
            }
        }),
{
    let write = write_of(raw, root);
    assert(write.carried_out(files).remove(write.path) =~= files.remove(write.path));
}

} // verus!
