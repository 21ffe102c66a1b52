//! The commands that are recognised, and what they are run as.

pub mod laws;

use vstd::prelude::*;
use crate::digest;
use crate::json;
use crate::json::{Json, JsonMember, JsonModel, ToJson};
use crate::list;
use crate::log;
use crate::observe;
use crate::path;
use crate::text;

verus! {

broadcast use vstd::string::group_string_axioms;

/// How the output of a run of Cargo is read.
#[derive(Clone, Copy, Debug, PartialEq, Eq, Structural)]
pub enum CargoExecutionKind {
    BuildJson,
    TestText,
}

/// A run of Cargo that was asked for.
#[derive(Clone, Debug, PartialEq, Eq)]
pub struct CargoExecutionRequest {
    pub cwd: String,
    pub cargo_args: Vec<String>,
    pub kind: CargoExecutionKind,
}

/// What a `CargoExecutionRequest` says.
pub struct CargoExecutionRequestModel {
    pub cwd: Seq<char>,
    pub cargo_args: Seq<Seq<char>>,
    pub kind: CargoExecutionKind,
}

impl DeepView for CargoExecutionRequest {
    type V = CargoExecutionRequestModel;

    open spec fn deep_view(&self) -> CargoExecutionRequestModel {
        CargoExecutionRequestModel {
            cwd: self.cwd@,
            cargo_args: self.cargo_args.deep_view(),
            kind: self.kind,
        }
    }
}

impl ToJson for CargoExecutionRequest {
    open spec fn json(value: CargoExecutionRequestModel) -> JsonModel {
        JsonModel::Object(
            seq![
                ("cwd"@, JsonModel::Text(value.cwd)),
                ("cargo_args"@, json::text_array(value.cargo_args)),
                (
                    "kind"@,
                    JsonModel::Text(
                        match value.kind {
                            CargoExecutionKind::BuildJson => "build_json"@,
                            CargoExecutionKind::TestText => "test_text"@,
                        },
                    ),
                ),
            ],
        )
    }

    fn to_json(&self) -> (r: Json) {
        let kind = match self.kind {
            CargoExecutionKind::BuildJson => "build_json",
            CargoExecutionKind::TestText => "test_text",
        };
        let mut members: Vec<JsonMember> = Vec::new();
        assert(json::member_models(members@) =~= Seq::empty());
        json::put(&mut members, "cwd", json::of_text(self.cwd.as_str()));
        json::put(&mut members, "cargo_args", json::of_texts(&self.cargo_args));
        json::put(&mut members, "kind", json::of_text(kind));
        assert(json::member_models(members@) =~= Self::json(self.deep_view())->Object_0);
        json::of_members(members)
    }
}

/// Where a report comes from: a file, or a run of the tests.
#[derive(Clone, Debug, PartialEq, Eq)]
pub enum LogExecutionSource {
    File { path: String, kind: log::InputKind },
    Nextest { cargo_args: Vec<String> },
}

/// What a `LogExecutionSource` says.
pub enum LogExecutionSourceModel {
    File { path: Seq<char>, kind: log::InputKind },
    Nextest { cargo_args: Seq<Seq<char>> },
}

impl DeepView for LogExecutionSource {
    type V = LogExecutionSourceModel;

    open spec fn deep_view(&self) -> LogExecutionSourceModel {
        match self {
            LogExecutionSource::File { path, kind } => LogExecutionSourceModel::File {
                path: path@,
                kind: *kind,
            },
            LogExecutionSource::Nextest { cargo_args } => LogExecutionSourceModel::Nextest {
                cargo_args: cargo_args.deep_view(),
            },
        }
    }
}

/// The name of a kind of report in a request.
pub open spec fn kind_label(kind: log::InputKind) -> Seq<char> {
    match kind {
        log::InputKind::JunitXml => "JunitXml"@,
        log::InputKind::SarifJson => "SarifJson"@,
        log::InputKind::GenericText => "GenericText"@,
        log::InputKind::NextestText => "NextestText"@,
    }
}

impl ToJson for LogExecutionSource {
    open spec fn json(value: LogExecutionSourceModel) -> JsonModel {
        JsonModel::Object(
            match value {
                LogExecutionSourceModel::File { path, kind } => seq![
                    ("source"@, JsonModel::Text("file"@)),
                    ("path"@, JsonModel::Text(path)),
                    ("kind"@, JsonModel::Text(kind_label(kind))),
                ],
                LogExecutionSourceModel::Nextest { cargo_args } => seq![
                    ("source"@, JsonModel::Text("nextest"@)),
                    ("cargo_args"@, json::text_array(cargo_args)),
                ],
            },
        )
    }

    fn to_json(&self) -> (r: Json) {
        let mut members: Vec<JsonMember> = Vec::new();
        assert(json::member_models(members@) =~= Seq::empty());
        match self {
            LogExecutionSource::File { path, kind } => {
                let label = match kind {
                    log::InputKind::JunitXml => "JunitXml",
                    log::InputKind::SarifJson => "SarifJson",
                    log::InputKind::GenericText => "GenericText",
                    log::InputKind::NextestText => "NextestText",
                };
                json::put(&mut members, "source", json::of_text("file"));
                json::put(&mut members, "path", json::of_text(path.as_str()));
                json::put(&mut members, "kind", json::of_text(label));
            },
            LogExecutionSource::Nextest { cargo_args } => {
                json::put(&mut members, "source", json::of_text("nextest"));
                json::put(&mut members, "cargo_args", json::of_texts(cargo_args));
            },
        }
        assert(json::member_models(members@) =~= Self::json(self.deep_view())->Object_0);
        json::of_members(members)
    }
}

/// A report that was asked for.
#[derive(Clone, Debug, PartialEq, Eq)]
pub struct LogExecutionRequest {
    pub cwd: String,
    pub source: LogExecutionSource,
}

/// What a `LogExecutionRequest` says.
pub struct LogExecutionRequestModel {
    pub cwd: Seq<char>,
    pub source: LogExecutionSourceModel,
}

impl DeepView for LogExecutionRequest {
    type V = LogExecutionRequestModel;

    open spec fn deep_view(&self) -> LogExecutionRequestModel {
        LogExecutionRequestModel { cwd: self.cwd@, source: self.source.deep_view() }
    }
}

impl ToJson for LogExecutionRequest {
    open spec fn json(value: LogExecutionRequestModel) -> JsonModel {
        JsonModel::Object(
            seq![
                ("cwd"@, JsonModel::Text(value.cwd)),
                ("source"@, LogExecutionSource::json(value.source)),
            ],
        )
    }

    fn to_json(&self) -> (r: Json) {
        let mut members: Vec<JsonMember> = Vec::new();
        assert(json::member_models(members@) =~= Seq::empty());
        json::put(&mut members, "cwd", json::of_text(self.cwd.as_str()));
        json::put(&mut members, "source", self.source.to_json());
        assert(json::member_models(members@) =~= Self::json(self.deep_view())->Object_0);
        json::of_members(members)
    }
}

/// A character that means nothing to a shell.
pub open spec fn safe_char(c: char) -> bool {
    text::ascii_alphanumeric(c) || c == '_' || c == '-' || c == '.' || c == '/' || c == '\\' || c
        == ':' || c == '=' || c == '+' || c == ',' || c == '@'
}

/// A word that means nothing but itself to a shell.
pub open spec fn safe_word(word: Seq<char>) -> bool {
    word.len() > 0 && forall|i: int| 0 <= i < word.len() ==> safe_char(#[trigger] word[i])
}

/// The words from `i` on are safe.
pub open spec fn safe_words_from(words: Seq<Seq<char>>, i: int) -> bool
    decreases words.len() - i,
{
    if i < 0 || i >= words.len() {
        true
    } else {
        safe_word(words[i]) && safe_words_from(words, i + 1)
    }
}

/// Where the action stands in a command of Cargo: behind the toolchain, where one is named.
pub open spec fn action_place(words: Seq<Seq<char>>) -> int {
    if words.len() > 1 && text::begins(words[1], "+"@) {
        2
    } else {
        1
    }
}

/// The first place from `i` on at which a word stands.
pub open spec fn word_from(words: Seq<Seq<char>>, word: Seq<char>, i: int) -> Option<int>
    decreases words.len() - i,
{
    if i < 0 || i >= words.len() {
        None
    } else if words[i] == word {
        Some(i)
    } else {
        word_from(words, word, i + 1)
    }
}

/// Where the words end that are meant for Cargo: what follows `--` is not.
pub open spec fn cargo_end(words: Seq<Seq<char>>) -> int {
    match word_from(words, "--"@, 0) {
        Some(place) => place,
        None => words.len() as int,
    }
}

/// Some word from `i` on asks for messages in a form other than JSON, alone or, before `end`,
/// with the word behind it.
pub open spec fn other_format_from(words: Seq<Seq<char>>, end: int, i: int) -> bool
    decreases words.len() - i,
{
    if i < 0 || i >= words.len() {
        false
    } else {
        ||| text::begins(words[i], "--message-format="@) && words[i] != "--message-format=json"@
        ||| words[i] == "--message-format"@ && i + 1 < end && words[i + 1] != "json"@
        ||| other_format_from(words, end, i + 1)
    }
}

/// The arguments of a build with messages as JSON: where no word of its own asks for that, one
/// is put before what is meant for the compiler.
pub open spec fn with_json_format(args: Seq<Seq<char>>) -> Seq<Seq<char>> {
    if word_from(args, "--message-format=json"@, 0) is Some {
        args
    } else {
        args.insert(cargo_end(args), "--message-format=json"@)
    }
}

/// The arguments and the kind of a run of Cargo, for the words of a command.
pub open spec fn cargo_words(words: Seq<Seq<char>>) -> Option<(Seq<Seq<char>>, CargoExecutionKind)> {
    let place = action_place(words);
    if words.len() == 0 || words[0] != "cargo"@ || !safe_words_from(words, 0) || place
        >= words.len() {
        None
    } else {
        let action = words[place];
        if action == "build"@ || action == "check"@ || action == "clippy"@ {
            if other_format_from(words, cargo_end(words), 0) {
                None
            } else {
                Some((with_json_format(words.skip(1)), CargoExecutionKind::BuildJson))
            }
        } else if action == "test"@ {
            Some((words.skip(1), CargoExecutionKind::TestText))
        } else {
            None
        }
    }
}

/// A command stands on one line but for white space at its ends, so that a shell reads one
/// command in it.
pub open spec fn on_one_line(command: Seq<char>) -> bool {
    !text::trimmed(command).contains('\n') && !text::trimmed(command).contains('\r')
}

/// The run of Cargo that a command is, where it is a simple one.
pub open spec fn cargo_request(command: Seq<char>, cwd: Seq<char>) -> Option<
    CargoExecutionRequestModel,
> {
    if !on_one_line(command) {
        None
    } else {
        match cargo_words(text::words_of(command)) {
            Some((cargo_args, kind)) => Some(CargoExecutionRequestModel { cwd, cargo_args, kind }),
            None => None,
        }
    }
}

/// The kind of a report, by the end of its path.
pub open spec fn log_kind(path: Seq<char>) -> Option<log::InputKind> {
    let lower = text::lowered(path);
    if text::finishes(lower, ".junit.xml"@) || text::finishes(lower, "junit-results.xml"@) {
        Some(log::InputKind::JunitXml)
    } else if text::finishes(lower, ".sarif"@) || text::finishes(lower, ".sarif.json"@) {
        Some(log::InputKind::SarifJson)
    } else if text::finishes(lower, ".nextest.log"@) {
        Some(log::InputKind::NextestText)
    } else if text::finishes(lower, ".log"@) {
        Some(log::InputKind::GenericText)
    } else {
        None
    }
}

/// The path that a command reads, where it does no more than that.
pub open spec fn read_path(words: Seq<Seq<char>>) -> Option<Seq<char>> {
    if words.len() == 2 && (words[0] == "cat"@ || words[0] == "Get-Content"@) {
        Some(words[1])
    } else if words.len() == 3 && words[0] == "Get-Content"@ && words[1] == "-Raw"@ {
        Some(words[2])
    } else {
        None
    }
}

/// Where the report comes from that a command gives, for its words.
pub open spec fn log_words(words: Seq<Seq<char>>, cwd: Seq<char>) -> Option<
    LogExecutionSourceModel,
> {
    if words.len() == 0 || !safe_words_from(words, 0) {
        None
    } else if words[0] == "cargo"@ {
        let place = action_place(words);
        if place + 1 < words.len() && words[place] == "nextest"@ && words[place + 1] == "run"@ {
            Some(LogExecutionSourceModel::Nextest { cargo_args: words.skip(1) })
        } else {
            None
        }
    } else {
        match read_path(words) {
            Some(word) => match log_kind(word) {
                Some(kind) => Some(
                    LogExecutionSourceModel::File { path: path::joined(cwd, word), kind },
                ),
                None => None,
            },
            None => None,
        }
    }
}

/// The report that a command gives, where it is a simple one.
pub open spec fn log_request(command: Seq<char>, cwd: Seq<char>) -> Option<
    LogExecutionRequestModel,
> {
    if !on_one_line(command) {
        None
    } else {
        match log_words(text::words_of(command), cwd) {
            Some(source) => Some(LogExecutionRequestModel { cwd, source }),
            None => None,
        }
    }
}

fn is_on_one_line(command: &[char]) -> (r: bool)
    ensures
        r == on_one_line(command@),
{
    let command = text::trim(command);
    !text::holds(command, '\n') && !text::holds(command, '\r')
}

fn is_safe_cargo_word(word: &[char]) -> (r: bool)
    ensures
        r == safe_word(word@),
{
    if word.len() == 0 {
        return false;
    }
    let mut i: usize = 0;
    while i < word.len()
        invariant
            i <= word@.len(),
            forall|k: int| 0 <= k < i ==> safe_char(#[trigger] word@[k]),
        decreases word@.len() - i,
    {
        let c = word[i];
        if !(text::is_alphanumeric(c) || c == '_' || c == '-' || c == '.' || c == '/' || c == '\\'
            || c == ':' || c == '=' || c == '+' || c == ',' || c == '@') {
            assert(!safe_char(word@[i as int]));
            return false;
        }
        i += 1;
    }
    true
}

fn are_safe(words: &Vec<&[char]>) -> (r: bool)
    ensures
        r == safe_words_from(text::views(words@), 0),
{
    let ghost all = text::views(words@);
    let mut i: usize = 0;
    while i < words.len()
        invariant
            i <= words@.len(),
            all == text::views(words@),
            safe_words_from(all, 0) == safe_words_from(all, i as int),
        decreases words@.len() - i,
    {
        assert(all[i as int] == words@[i as int]@);
        if !is_safe_cargo_word(words[i]) {
            return false;
        }
        i += 1;
    }
    true
}

fn find_action(words: &Vec<&[char]>) -> (r: usize)
    ensures
        r == action_place(text::views(words@)),
        1 <= r <= 2,
{
    if words.len() > 1 && text::starts_with(words[1], "+") {
        2
    } else {
        1
    }
}

fn find_word(words: &Vec<String>, word: &str) -> (r: Option<usize>)
    ensures
        match (r, word_from(words.deep_view(), word@, 0)) {
            (Some(place), Some(p)) => place == p && p < words@.len(),
            (None, None) => true,
            _ => false,
        },
{
    let ghost all = words.deep_view();
    let mut i: usize = 0;
    while i < words.len()
        invariant
            i <= words@.len(),
            all == words.deep_view(),
            word_from(all, word@, 0) == word_from(all, word@, i as int),
        decreases words@.len() - i,
    {
        assert(all[i as int] == words@[i as int]@);
        if text::same_text(words[i].as_str(), word) {
            return Some(i);
        }
        i += 1;
    }
    None
}

fn find_cargo_end(words: &Vec<&[char]>) -> (r: usize)
    ensures
        r == cargo_end(text::views(words@)),
        r <= words@.len(),
{
    let ghost all = text::views(words@);
    let mut i: usize = 0;
    while i < words.len()
        invariant
            i <= words@.len(),
            all == text::views(words@),
            word_from(all, "--"@, 0) == word_from(all, "--"@, i as int),
        decreases words@.len() - i,
    {
        assert(all[i as int] == words@[i as int]@);
        if text::is(words[i], "--") {
            return i;
        }
        i += 1;
    }
    i
}

fn asks_for_other_format(words: &Vec<&[char]>) -> (r: bool)
    ensures
        r == other_format_from(text::views(words@), cargo_end(text::views(words@)), 0),
{
    let ghost all = text::views(words@);
    let end: usize = find_cargo_end(words);
    let mut i: usize = 0;
    while i < words.len()
        invariant
            i <= words@.len(),
            end <= words@.len(),
            all == text::views(words@),
            end == cargo_end(all),
            other_format_from(all, end as int, 0) == other_format_from(all, end as int, i as int),
        decreases words@.len() - i,
    {
        assert(all[i as int] == words@[i as int]@);
        if text::starts_with(words[i], "--message-format=") && !text::is(
            words[i],
            "--message-format=json",
        ) {
            return true;
        }
        assert(i + 1 < all.len() ==> all[i + 1] == words@[i + 1]@);
        if text::is(words[i], "--message-format") && i < end && end - i > 1 && !text::is(
            words[i + 1],
            "json",
        ) {
            return true;
        }
        i += 1;
    }
    false
}

fn arguments(words: &Vec<&[char]>) -> (r: Vec<String>)
    requires
        words@.len() > 0,
    ensures
        r.deep_view() == text::views(words@).skip(1),
{
    let ghost all = text::views(words@);
    let mut out: Vec<String> = Vec::new();
    let mut i: usize = 1;
    while i < words.len()
        invariant
            1 <= i <= words@.len(),
            all == text::views(words@),
            out@.len() == i - 1,
            forall|k: int| 0 <= k < out@.len() ==> (#[trigger] out@[k])@ == all[k + 1],
        decreases words@.len() - i,
    {
        assert(all[i as int] == words@[i as int]@);
        out.push(text::to_text(words[i]));
        i += 1;
    }
    assert(out.deep_view() =~= all.skip(1));
    out
}

/// The run of Cargo that a command is, where it is a simple one.
pub fn parse_simple_cargo_command(command: &str, cwd: &str) -> (r: Option<CargoExecutionRequest>)
    ensures
        r.deep_view() == cargo_request(command@, cwd@),
{
    let chars = text::to_chars(command);
    if !is_on_one_line(chars.as_slice()) {
        return None;
    }
    let words = text::words(chars.as_slice());
    let ghost all = text::views(words@);
    if words.len() == 0 {
        return None;
    }
    assert(all[0] == words@[0]@);
    if !text::is(words[0], "cargo") || !are_safe(&words) {
        return None;
    }
    let place: usize = find_action(&words);
    if place >= words.len() {
        return None;
    }
    assert(all[place as int] == words@[place as int]@);
    let action = words[place];
    if text::is(action, "build") || text::is(action, "check") || text::is(action, "clippy") {
        if asks_for_other_format(&words) {
            return None;
        }
        let mut cargo_args = arguments(&words);
        if find_word(&cargo_args, "--message-format=json").is_none() {
            let ghost before = cargo_args.deep_view();
            let insert_at: usize = match find_word(&cargo_args, "--") {
                Some(place) => place,
                None => cargo_args.len(),
            };
            cargo_args.insert(insert_at, text::copy("--message-format=json"));
            assert(cargo_args.deep_view() =~= before.insert(
                insert_at as int,
                "--message-format=json"@,
            ));
        }
        return Some(
            CargoExecutionRequest {
                cwd: text::copy(cwd),
                cargo_args,
                kind: CargoExecutionKind::BuildJson,
            },
        );
    }
    if text::is(action, "test") {
        return Some(
            CargoExecutionRequest {
                cwd: text::copy(cwd),
                cargo_args: arguments(&words),
                kind: CargoExecutionKind::TestText,
            },
        );
    }
    None
}

/// The kind of a report, by the end of its path.
pub fn infer_log_kind(path: &[char]) -> (r: Option<log::InputKind>)
    ensures
        r == log_kind(path@),
{
    let lower = text::to_lower(path);
    let lower = lower.as_slice();
    if text::ends_with(lower, ".junit.xml") || text::ends_with(lower, "junit-results.xml") {
        Some(log::InputKind::JunitXml)
    } else if text::ends_with(lower, ".sarif") || text::ends_with(lower, ".sarif.json") {
        Some(log::InputKind::SarifJson)
    } else if text::ends_with(lower, ".nextest.log") {
        Some(log::InputKind::NextestText)
    } else if text::ends_with(lower, ".log") {
        Some(log::InputKind::GenericText)
    } else {
        None
    }
}

/// The report that a command gives, where it is a simple one.
pub fn parse_simple_log_command(command: &str, cwd: &str) -> (r: Option<LogExecutionRequest>)
    ensures
        r.deep_view() == log_request(command@, cwd@),
{
    let chars = text::to_chars(command);
    if !is_on_one_line(chars.as_slice()) {
        return None;
    }
    let words = text::words(chars.as_slice());
    let ghost all = text::views(words@);
    if words.len() == 0 || !are_safe(&words) {
        return None;
    }
    assert(all[0] == words@[0]@);
    if text::is(words[0], "cargo") {
        let place: usize = find_action(&words);
        if place + 1 < words.len() {
            assert(all[place as int] == words@[place as int]@);
            assert(all[place + 1] == words@[place + 1]@);
            if text::is(words[place], "nextest") && text::is(words[place + 1], "run") {
                return Some(
                    LogExecutionRequest {
                        cwd: text::copy(cwd),
                        source: LogExecutionSource::Nextest { cargo_args: arguments(&words) },
                    },
                );
            }
        }
        return None;
    }
    let count: usize = words.len();
    let word = if count == 2 && (text::is(words[0], "cat") || text::is(words[0], "Get-Content")) {
        assert(all[1] == words@[1]@);
        words[1]
    } else if count == 3 && text::is(words[0], "Get-Content") && text::is(words[1], "-Raw") {
        assert(all[1] == words@[1]@);
        assert(all[2] == words@[2]@);
        words[2]
    } else {
        assert(count == 3 ==> all[1] == words@[1]@);
        return None;
    };
    match infer_log_kind(word) {
        Some(kind) => {
            let part = text::to_text(word);
            Some(
                LogExecutionRequest {
                    cwd: text::copy(cwd),
                    source: LogExecutionSource::File { path: path::join(cwd, part.as_str()), kind },
                },
            )
        },
        None => None,
    }
}

/// Text in the quotes of PowerShell.
pub open spec fn powershell_quoted(value: Seq<char>) -> Seq<char> {
    seq!['\''] + text::replaced(value, '\'', "''"@) + seq!['\'']
}

/// Text in the quotes of a POSIX shell.
pub open spec fn posix_quoted(value: Seq<char>) -> Seq<char> {
    seq!['\''] + text::replaced(value, '\'', "'\\''"@) + seq!['\'']
}

fn quote_with(value: &str, escape: &str) -> (r: String)
    ensures
        r@ == seq!['\''] + text::replaced(value@, '\'', escape@) + seq!['\''],
{
    let mut out: Vec<char> = Vec::new();
    out.push('\'');
    let chars = text::to_chars(value);
    text::append(&mut out, text::replace(chars.as_slice(), '\'', escape).as_slice());
    out.push('\'');
    assert(out@ =~= seq!['\''] + text::replaced(value@, '\'', escape@) + seq!['\'']);
    text::to_text(out.as_slice())
}

/// Text in the quotes of PowerShell.
pub fn quote_powershell(value: &str) -> (r: String)
    ensures
        r@ == powershell_quoted(value@),
{
    quote_with(value, "''")
}

/// Text in the quotes of a POSIX shell.
pub fn quote_posix_shell(value: &str) -> (r: String)
    ensures
        r@ == posix_quoted(value@),
{
    quote_with(value, "'\\''")
}

/// The shell that a command is written for.
#[derive(Clone, Copy, Debug, PartialEq, Eq, Structural)]
pub enum Shell {
    Posix,
    PowerShell,
}

/// The command that runs a request.
pub open spec fn executor_command(
    shell: Shell,
    executable: Seq<char>,
    subcommand: Seq<char>,
    request_path: Seq<char>,
) -> Seq<char> {
    match shell {
        Shell::PowerShell => "& "@ + powershell_quoted(executable) + " "@ + subcommand
            + " --request "@ + powershell_quoted(request_path),
        Shell::Posix => posix_quoted(executable) + " "@ + subcommand + " --request "@
            + posix_quoted(request_path),
    }
}

/// The command that runs a request.
pub fn build_executor_command(shell: Shell, executable: &str, subcommand: &str, request_path: &str) ->
    (r: String)
    ensures
        r@ == executor_command(shell, executable@, subcommand@, request_path@),
{
    let (program, request) = match shell {
        Shell::PowerShell => (
            text::concat("& ", quote_powershell(executable).as_str()),
            quote_powershell(request_path),
        ),
        Shell::Posix => (quote_posix_shell(executable), quote_posix_shell(request_path)),
    };
    let front = text::concat(program.as_str(), " ");
    let front = text::concat(front.as_str(), subcommand);
    let front = text::concat(front.as_str(), " --request ");
    text::concat(front.as_str(), request.as_str())
}

/// Where a request is kept: its name is the digest of what it says and of the time.
pub open spec fn request_file(cwd: Seq<char>, payload: Seq<char>, timestamp: u128) -> Seq<char> {
    let root = path::joined(path::joined(cwd, ".cabal"@), "requests"@);
    let id = digest::sha256_hex(
        vstd::utf8::encode_utf8(payload + text::decimal(timestamp as nat)),
    );
    path::joined(root, id + ".json"@)
}

/// Where a request is kept.
pub fn request_file_path(cwd: &str, payload: &str, timestamp: u128) -> (r: String)
    ensures
        r@ == request_file(cwd@, payload@, timestamp),
{
    let directory = path::join(cwd, ".cabal");
    let root = path::join(directory.as_str(), "requests");
    let mut chars = text::to_chars(payload);
    text::append(&mut chars, text::format_wide(timestamp).as_slice());
    let named = text::to_text(chars.as_slice());
    let id = digest::sha256_text(named.as_str().as_bytes());
    let file = text::concat(id.as_str(), ".json");
    path::join(root.as_str(), file.as_str())
}

/// Where the artifacts of a workspace lie.
pub fn artifact_root_for(cwd: &str) -> (r: String)
    ensures
        r@ == path::joined(path::joined(cwd@, ".cabal"@), "artifacts"@),
{
    let directory = path::join(cwd, ".cabal");
    path::join(directory.as_str(), "artifacts")
}

/// Two words stand side by side from `i` on.
pub open spec fn pair_from(words: Seq<Seq<char>>, a: Seq<char>, b: Seq<char>, i: int) -> bool
    decreases words.len() - i,
{
    if i < 0 || i + 1 >= words.len() {
        false
    } else {
        (words[i] == a && words[i + 1] == b) || pair_from(words, a, b, i + 1)
    }
}

fn has_pair(words: &Vec<&[char]>, a: &str, b: &str) -> (r: bool)
    ensures
        r == pair_from(text::views(words@), a@, b@, 0),
{
    let ghost all = text::views(words@);
    let count: usize = words.len();
    let mut i: usize = 0;
    while i < count && count - i > 1
        invariant
            i <= count,
            count == words@.len(),
            all == text::views(words@),
            pair_from(all, a@, b@, 0) == pair_from(all, a@, b@, i as int),
        decreases count - i,
    {
        assert(all[i as int] == words@[i as int]@);
        assert(all[i + 1] == words@[i + 1]@);
        if text::is(words[i], a) && text::is(words[i + 1], b) {
            return true;
        }
        i += 1;
    }
    false
}

/// The command asks Git for a diff.
pub open spec fn asks_for_diff(command: Seq<char>) -> bool {
    pair_from(text::words_of(command), "git"@, "diff"@, 0)
}

/// The command asks Git for a diff.
pub fn is_git_diff(command: &str) -> (r: bool)
    ensures
        r == asks_for_diff(command@),
{
    let chars = text::to_chars(command);
    let words = text::words(chars.as_slice());
    has_pair(&words, "git", "diff")
}

/// A byte that is white space.
pub open spec fn space_byte(b: u8) -> bool {
    b == 9 || b == 10 || b == 12 || b == 13 || b == 32
}

/// The first byte from `i` on that is no white space opens an object.
pub open spec fn opens_object_from(raw: Seq<u8>, i: int) -> bool
    decreases raw.len() - i,
{
    if i < 0 || i >= raw.len() {
        false
    } else if space_byte(raw[i]) {
        opens_object_from(raw, i + 1)
    } else {
        raw[i] == 123
    }
}

/// The output looks like lines of JSON.
pub fn looks_like_json_lines(raw: &[u8]) -> (r: bool)
    ensures
        r == opens_object_from(raw@, 0),
{
    let mut i: usize = 0;
    while i < raw.len()
        invariant
            i <= raw@.len(),
            opens_object_from(raw@, 0) == opens_object_from(raw@, i as int),
        decreases raw@.len() - i,
    {
        let b: u8 = raw[i];
        if !(b == 9 || b == 10 || b == 12 || b == 13 || b == 32) {
            return b == 123;
        }
        i += 1;
    }
    false
}

/// How the output of a command is read, where it builds or tests.
pub open spec fn build_kind(command: Seq<char>, raw: Seq<u8>) -> Option<observe::InputKind> {
    let words = text::words_of(command);
    if pair_from(words, "cargo"@, "build"@, 0) || pair_from(words, "cargo"@, "check"@, 0)
        || pair_from(words, "cargo"@, "clippy"@, 0) || pair_from(words, "cargo"@, "test"@, 0) {
        if text::has(command, "--message-format=json"@) || opens_object_from(raw, 0) {
            Some(observe::InputKind::CargoJson)
        } else {
            Some(observe::InputKind::CargoTestText)
        }
    } else {
        None
    }
}

/// How the output of a command is read, where it builds or tests.
pub fn build_input_kind(command: &str, raw: &[u8]) -> (r: Option<observe::InputKind>)
    ensures
        r == build_kind(command@, raw@),
{
    let chars = text::to_chars(command);
    let words = text::words(chars.as_slice());
    if !has_pair(&words, "cargo", "build") && !has_pair(&words, "cargo", "check") && !has_pair(
        &words,
        "cargo",
        "clippy",
    ) && !has_pair(&words, "cargo", "test") {
        return None;
    }
    if text::contains(chars.as_slice(), "--message-format=json") || looks_like_json_lines(raw) {
        Some(observe::InputKind::CargoJson)
    } else {
        Some(observe::InputKind::CargoTestText)
    }
}

proof fn safe_words_are_safe(words: Seq<Seq<char>>, i: int, k: int)
    requires
        0 <= i <= k < words.len(),
        safe_words_from(words, i),
    ensures
        safe_word(words[k]),
    decreases k - i,
{
    if i < k {
        safe_words_are_safe(words, i + 1, k);
    }
}

/// A command is run in another way only where it stands on one line, but for white space at its
/// ends, and every word of it means nothing but itself to a shell.
pub proof fn only_simple_commands_are_rewritten(command: Seq<char>, cwd: Seq<char>, k: int)
    requires
        cargo_request(command, cwd) is Some || log_request(command, cwd) is Some,
        0 <= k < text::words_of(command).len(),
    ensures
        safe_word(text::words_of(command)[k]),
        !text::trimmed(command).contains('\n') && !text::trimmed(command).contains('\r'),
{
    safe_words_are_safe(text::words_of(command), 0, k);
}

proof fn word_is_within(words: Seq<Seq<char>>, word: Seq<char>, i: int)
    requires
        0 <= i,
    ensures
        word_from(words, word, i) matches Some(place) ==> i <= place < words.len(),
    decreases words.len() - i,
{
    if i < words.len() {
        word_is_within(words, word, i + 1);
    }
}

/// A run of Cargo has the arguments of the command, in their order, and at most the request
/// for messages as JSON besides.
pub proof fn arguments_are_kept(command: Seq<char>, cwd: Seq<char>)
    ensures
        cargo_request(command, cwd) matches Some(request) ==> {
            let given = text::words_of(command).skip(1);
            ||| request.cargo_args == given
            ||| exists|place: int|
                0 <= place < request.cargo_args.len() && #[trigger] request.cargo_args[place]
                    == "--message-format=json"@ && request.cargo_args.remove(place) == given
        },
{
    if let Some(request) = cargo_request(command, cwd) {
        let given = text::words_of(command).skip(1);
        if request.cargo_args != given {
            word_is_within(given, "--"@, 0);
            let place = match word_from(given, "--"@, 0) {
                Some(place) => place,
                None => given.len() as int,
            };
            assert(request.cargo_args[place] == "--message-format=json"@);
            assert(request.cargo_args.remove(place) =~= given);
        }
    }
}

/// What a POSIX shell reads from `i` on, in quotes or not: in single quotes every character
/// stands for itself, and outside them the one behind a backslash does.
pub open spec fn shell_reads_from(s: Seq<char>, i: int, quoted: bool) -> Seq<char>
    decreases s.len() - i,
{
    if i < 0 || i >= s.len() {
        seq![]
    } else if quoted {
        if s[i] == '\'' {
            shell_reads_from(s, i + 1, false)
        } else {
            seq![s[i]] + shell_reads_from(s, i + 1, true)
        }
    } else if s[i] == '\'' {
        shell_reads_from(s, i + 1, true)
    } else if s[i] == '\\' && i + 1 < s.len() {
        seq![s[i + 1]] + shell_reads_from(s, i + 2, false)
    } else {
        seq![s[i]] + shell_reads_from(s, i + 1, false)
    }
}

proof fn shell_reads_on(front: Seq<char>, value: Seq<char>, i: int)
    requires
        0 <= i <= value.len(),
    ensures
        ({
            let escape = "'\\''"@;
            let rest = text::replaced_from(value, '\'', escape, i);
            shell_reads_from(front + rest + seq!['\''], front.len() as int, true) == value.skip(i)
        }),
    decreases value.len() - i,
{
    reveal_strlit("'\\''");
    let escape = "'\\''"@;
    let rest = text::replaced_from(value, '\'', escape, i);
    let all = front + rest + seq!['\''];
    let n = front.len() as int;
    if i < value.len() {
        let next = text::replaced_from(value, '\'', escape, i + 1);
        let piece = if value[i] == '\'' {
            escape
        } else {
            seq![value[i]]
        };
        assert(rest =~= piece + next);
        shell_reads_on(front + piece, value, i + 1);
        assert(front + piece + next + seq!['\''] =~= all);
        assert(value.skip(i) =~= seq![value[i]] + value.skip(i + 1));
        if value[i] == '\'' {
            assert(all[n] == '\'');
            assert(all[n + 1] == '\\');
            assert(all[n + 2] == '\'');
            assert(all[n + 3] == '\'');
            reveal_with_fuel(shell_reads_from, 4);
        } else {
            assert(all[n] == value[i]);
        }
    } else {
        assert(all[n] == '\'');
        reveal_with_fuel(shell_reads_from, 2);
        assert(value.skip(i) =~= seq![]);
    }
}

/// A POSIX shell reads quoted text as the text that was quoted, whatever is in it.
pub proof fn shells_read_what_was_quoted(value: Seq<char>)
    ensures
        shell_reads_from(posix_quoted(value), 0, false) == value,
{
    let front = seq!['\''];
    shell_reads_on(front, value, 0);
    assert(posix_quoted(value) =~= front + text::replaced_from(value, '\'', "'\\''"@, 0)
        + seq!['\'']);
    assert(posix_quoted(value)[0] == '\'');
    assert(value.skip(0) =~= value);
}

} // verus!
