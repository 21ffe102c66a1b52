//! What is promised of the commands that are run in another way.

use vstd::prelude::*;
use crate::hook::commands::{
    asks_for_diff, build_kind, cargo_end, cargo_request, executor_command, log_kind, log_request,
    on_one_line, opens_object_from, other_format_from, pair_from, posix_quoted, powershell_quoted,
    safe_words_from, shell_reads_from, word_from, CargoExecutionKind, LogExecutionSourceModel,
    Shell,
};
use crate::log;
use crate::observe;
use crate::path;
use crate::text;

verus! {

broadcast use vstd::string::group_string_axioms;

/// A word that means nothing but itself to a shell.
pub open spec fn plain_word(word: Seq<char>) -> bool {
    word.len() > 0 && forall|k: int| #![trigger word[k]]
        0 <= k < word.len() ==> text::ascii_letter(word[k]) || text::ascii_digit(word[k]) || word[k]
            == '_' || word[k] == '-' || word[k] == '.' || word[k] == '/' || word[k] == '\\'
            || word[k] == ':' || word[k] == '=' || word[k] == '+' || word[k] == ',' || word[k]
            == '@'
}

proof fn plain_words_are_safe(words: Seq<Seq<char>>, i: int)
    requires
        0 <= i,
    ensures
        safe_words_from(words, i) <==> forall|k: int|
            i <= k < words.len() ==> plain_word(#[trigger] words[k]),
    decreases words.len() - i,
{
    if i < words.len() {
        plain_words_are_safe(words, i + 1);
        let word = words[i];
        if crate::hook::commands::safe_word(word) {
            assert forall|k: int| #![trigger word[k]] 0 <= k < word.len() implies text::ascii_letter(
                word[k],
            ) || text::ascii_digit(word[k]) || word[k] == '_' || word[k] == '-' || word[k] == '.'
                || word[k] == '/' || word[k] == '\\' || word[k] == ':' || word[k] == '=' || word[k]
                == '+' || word[k] == ',' || word[k] == '@' by {
                assert(crate::hook::commands::safe_char(word[k]));
            }
            assert(plain_word(word));
        }
        if plain_word(word) {
            assert forall|k: int| 0 <= k < word.len() implies crate::hook::commands::safe_char(
                #[trigger] word[k],
            ) by {}
            assert(crate::hook::commands::safe_word(word));
        }
    }
}

proof fn words_are_found(words: Seq<Seq<char>>, word: Seq<char>, i: int)
    requires
        0 <= i,
    ensures
        match word_from(words, word, i) {
            Some(n) => i <= n < words.len() && words[n] == word && forall|k: int|
                i <= k < n ==> #[trigger] words[k] != word,
            None => forall|k: int| i <= k < words.len() ==> #[trigger] words[k] != word,
        },
    decreases words.len() - i,
{
    if i < words.len() {
        words_are_found(words, word, i + 1);
    }
}

/// A word that asks for messages in another format than JSON, alone or with the word behind it.
pub open spec fn asks_otherwise(words: Seq<Seq<char>>, end: int, k: int) -> bool {
    ||| text::begins(words[k], "--message-format="@) && words[k] != "--message-format=json"@
    ||| words[k] == "--message-format"@ && k + 1 < end && words[k + 1] != "json"@
}

proof fn formats_are_found(words: Seq<Seq<char>>, end: int, i: int)
    requires
        0 <= i,
    ensures
        other_format_from(words, end, i) <==> exists|k: int|
            i <= k < words.len() && #[trigger] asks_otherwise(words, end, k),
    decreases words.len() - i,
{
    if i < words.len() {
        formats_are_found(words, end, i + 1);
        if exists|k: int| i <= k < words.len() && #[trigger] asks_otherwise(words, end, k) {
            let k = choose|k: int|
                i <= k < words.len() && #[trigger] asks_otherwise(words, end, k);
            if k > i {
                assert(i + 1 <= k);
            }
        }
        if other_format_from(words, end, i) && !other_format_from(words, end, i + 1) {
            assert(asks_otherwise(words, end, i));
        }
    }
}

/// The place of the action in a command for Cargo: behind the toolchain where one is named.
pub open spec fn action_at(words: Seq<Seq<char>>) -> int {
    if words.len() > 1 && words[1].len() > 0 && words[1][0] == '+' {
        2
    } else {
        1
    }
}

proof fn action_is_there(words: Seq<Seq<char>>)
    ensures
        crate::hook::commands::action_place(words) == action_at(words),
{
    reveal_strlit("+");
    if words.len() > 1 && words[1].len() > 0 {
        assert(words[1].subrange(0, 1)[0] == words[1][0]);
        if words[1][0] == '+' {
            assert(words[1].subrange(0, 1) =~= "+"@);
        }
    }
}

/// A plain command for Cargo to test is run with its arguments as they are and its output read
/// as text; one to build, to check or to lint is run with its arguments and the request for
/// messages as JSON, at their end or in front of the two dashes, once, and its output is read as
/// JSON. One that asks for another format, and every other action, is left alone.
pub proof fn cargo_commands_are_recognised(
    command: Seq<char>,
    cwd: Seq<char>,
    words: Seq<Seq<char>>,
)
    requires
        on_one_line(command),
        text::words_of(command) == words,
        words.len() > 0,
        words[0] == "cargo"@,
        forall|k: int| 0 <= k < words.len() ==> plain_word(#[trigger] words[k]),
        action_at(words) < words.len(),
    ensures
        ({
            let action = words[action_at(words)];
            let builds = action == "build"@ || action == "check"@ || action == "clippy"@;
            let otherwise = exists|k: int|
                0 <= k < words.len() && #[trigger] asks_otherwise(words, cargo_end(words), k);
            let request = cargo_request(command, cwd);
            &&& action == "test"@ ==> request is Some && request->0.kind
                == CargoExecutionKind::TestText && request->0.cargo_args == words.skip(1)
                && request->0.cwd == cwd
            &&& builds && otherwise ==> request is None
            &&& builds && !otherwise ==> request is Some && {
                let args = request->0.cargo_args;
                let given = words.skip(1);
                &&& request->0.kind == CargoExecutionKind::BuildJson
                &&& request->0.cwd == cwd
                &&& given.contains("--message-format=json"@) ==> args == given
                &&& !given.contains("--message-format=json"@) ==> exists|n: int|
                    0 <= n <= given.len() && args == #[trigger] given.insert(
                        n,
                        "--message-format=json"@,
                    ) && (n == given.len() || given[n] == "--"@) && forall|k: int|
                        0 <= k < n ==> #[trigger] given[k] != "--"@
            }
            &&& action != "test"@ && !builds ==> request is None
        }),
{
    reveal_strlit("test");
    reveal_strlit("build");
    reveal_strlit("check");
    reveal_strlit("clippy");
    plain_words_are_safe(words, 0);
    action_is_there(words);
    let given = words.skip(1);
    formats_are_found(words, cargo_end(words), 0);
    words_are_found(given, "--message-format=json"@, 0);
    words_are_found(given, "--"@, 0);
    if given.contains("--message-format=json"@) {
        let k = given.index_of("--message-format=json"@);
        assert(given[k] == "--message-format=json"@);
    }
    let n = cargo_end(given);
    assert(given.insert(n, "--message-format=json"@).len() == given.len() + 1);
}

/// A run of nextest is read as its output, and a plain command that shows a report is read as
/// that report, by the end of its name.
pub proof fn report_commands_are_recognised(
    command: Seq<char>,
    cwd: Seq<char>,
    words: Seq<Seq<char>>,
)
    requires
        on_one_line(command),
        text::words_of(command) == words,
        words.len() > 0,
        forall|k: int| 0 <= k < words.len() ==> plain_word(#[trigger] words[k]),
    ensures
        ({
            let request = log_request(command, cwd);
            let n = action_at(words);
            let shows = words.len() == 2 && (words[0] == "cat"@ || words[0] == "Get-Content"@)
                || words.len() == 3 && words[0] == "Get-Content"@ && words[1] == "-Raw"@;
            &&& words[0] == "cargo"@ && n + 1 < words.len() && words[n] == "nextest"@ && words[n
                + 1] == "run"@ ==> request is Some && request->0.source == (
            LogExecutionSourceModel::Nextest { cargo_args: words.skip(1) }) && request->0.cwd
                == cwd
            &&& shows ==> match log_kind(words.last()) {
                Some(kind) => request is Some && request->0.source == (
                LogExecutionSourceModel::File { path: path::joined(cwd, words.last()), kind })
                    && request->0.cwd == cwd,
                None => request is None,
            }
            &&& words[0] != "cargo"@ && !shows ==> request is None
        }),
{
    reveal_strlit("cargo");
    reveal_strlit("cat");
    reveal_strlit("Get-Content");
    plain_words_are_safe(words, 0);
    action_is_there(words);
    assert("cargo"@.len() == 5 && "cat"@.len() == 3 && "Get-Content"@.len() == 11);
}

proof fn ends_are_lowered(stem: Seq<char>, end: Seq<char>)
    requires
        forall|k: int| 0 <= k < end.len() ==> !('A' <= #[trigger] end[k] <= 'Z'),
    ensures
        text::finishes(text::lowered(stem + end), end),
        end.len() > 0 ==> text::lowered(stem + end).last() == end.last(),
{
    let s = text::lowered(stem + end);
    assert(s.subrange(s.len() - end.len(), s.len() as int) =~= end);
}

proof fn ends_otherwise(s: Seq<char>, end: Seq<char>)
    requires
        s.len() > 0,
        end.len() > 0,
        s.last() != end.last(),
    ensures
        !text::finishes(s, end),
{
    if text::finishes(s, end) {
        assert(s.subrange(s.len() - end.len(), s.len() as int).last() == s.last());
    }
}

/// The end of its name tells what a report is.
pub proof fn reports_are_told_by_their_names(stem: Seq<char>)
    ensures
        log_kind(stem + ".junit.xml"@) == Some(log::InputKind::JunitXml),
        log_kind(stem + "junit-results.xml"@) == Some(log::InputKind::JunitXml),
        log_kind(stem + ".sarif"@) == Some(log::InputKind::SarifJson),
        log_kind(stem + ".sarif.json"@) == Some(log::InputKind::SarifJson),
        log_kind(stem + ".nextest.log"@) == Some(log::InputKind::NextestText),
        !text::finishes(text::lowered(stem + ".log"@), ".nextest.log"@) ==> log_kind(
            stem + ".log"@,
        ) == Some(log::InputKind::GenericText),
        log_kind(stem + ".rs"@) is None,
{
    reveal_strlit(".junit.xml");
    reveal_strlit("junit-results.xml");
    reveal_strlit(".sarif");
    reveal_strlit(".sarif.json");
    reveal_strlit(".nextest.log");
    reveal_strlit(".log");
    reveal_strlit(".rs");
    ends_are_lowered(stem, ".junit.xml"@);
    ends_are_lowered(stem, "junit-results.xml"@);
    ends_are_lowered(stem, ".sarif"@);
    ends_are_lowered(stem, ".sarif.json"@);
    ends_are_lowered(stem, ".nextest.log"@);
    ends_are_lowered(stem, ".log"@);
    ends_are_lowered(stem, ".rs"@);
    let sarif = text::lowered(stem + ".sarif"@);
    let json = text::lowered(stem + ".sarif.json"@);
    let nextest = text::lowered(stem + ".nextest.log"@);
    let plain = text::lowered(stem + ".log"@);
    let source = text::lowered(stem + ".rs"@);
    ends_otherwise(sarif, ".junit.xml"@);
    ends_otherwise(sarif, "junit-results.xml"@);
    ends_otherwise(json, ".junit.xml"@);
    ends_otherwise(json, "junit-results.xml"@);
    ends_otherwise(nextest, ".junit.xml"@);
    ends_otherwise(nextest, "junit-results.xml"@);
    ends_otherwise(nextest, ".sarif"@);
    ends_otherwise(nextest, ".sarif.json"@);
    ends_otherwise(plain, ".junit.xml"@);
    ends_otherwise(plain, "junit-results.xml"@);
    ends_otherwise(plain, ".sarif"@);
    ends_otherwise(plain, ".sarif.json"@);
    ends_otherwise(source, ".junit.xml"@);
    ends_otherwise(source, "junit-results.xml"@);
    ends_otherwise(source, ".sarif"@);
    ends_otherwise(source, ".sarif.json"@);
    ends_otherwise(source, ".nextest.log"@);
    ends_otherwise(source, ".log"@);
}

proof fn pairs_are_found(words: Seq<Seq<char>>, a: Seq<char>, b: Seq<char>, i: int)
    requires
        0 <= i,
    ensures
        pair_from(words, a, b, i) <==> exists|k: int|
            i <= k && k + 1 < words.len() && #[trigger] words[k] == a && words[k + 1] == b,
    decreases words.len() - i,
{
    if i + 1 < words.len() {
        pairs_are_found(words, a, b, i + 1);
        if exists|k: int|
            i <= k && k + 1 < words.len() && #[trigger] words[k] == a && words[k + 1] == b {
            let k = choose|k: int|
                i <= k && k + 1 < words.len() && #[trigger] words[k] == a && words[k + 1] == b;
            if k > i {
                assert(i + 1 <= k);
            }
        }
    }
}

/// Two words stand one behind the other in a command.
pub open spec fn says(command: Seq<char>, a: Seq<char>, b: Seq<char>) -> bool {
    let words = text::words_of(command);
    exists|k: int| 0 <= k && k + 1 < words.len() && #[trigger] words[k] == a && words[k + 1] == b
}

proof fn objects_are_opened(raw: Seq<u8>, i: int, n: int)
    requires
        0 <= i <= n < raw.len(),
        forall|k: int|
            i <= k < n ==> raw[k] == 9 || raw[k] == 10 || raw[k] == 12 || raw[k] == 13
                || #[trigger] raw[k] == 32,
        !(raw[n] == 9 || raw[n] == 10 || raw[n] == 12 || raw[n] == 13 || raw[n] == 32),
    ensures
        opens_object_from(raw, i) <==> raw[n] == 123,
    decreases n - i,
{
    if i < n {
        assert(raw[i] == 9 || raw[i] == 10 || raw[i] == 12 || raw[i] == 13 || raw[i] == 32);
        objects_are_opened(raw, i + 1, n);
    }
}

/// Output is read as a diff where the command says so, and as that of a build or a test where
/// it says one of these: as JSON where that was asked for, or where the output opens with a
/// brace, and as text otherwise. Other output is not read.
pub proof fn output_is_read_by_its_command(command: Seq<char>, raw: Seq<u8>, n: int)
    requires
        0 <= n < raw.len(),
        forall|k: int|
            0 <= k < n ==> raw[k] == 9 || raw[k] == 10 || raw[k] == 12 || raw[k] == 13
                || #[trigger] raw[k] == 32,
        !(raw[n] == 9 || raw[n] == 10 || raw[n] == 12 || raw[n] == 13 || raw[n] == 32),
    ensures
        asks_for_diff(command) <==> says(command, "git"@, "diff"@),
        ({
            let runs = says(command, "cargo"@, "build"@) || says(command, "cargo"@, "check"@)
                || says(command, "cargo"@, "clippy"@) || says(command, "cargo"@, "test"@);
            &&& !runs ==> build_kind(command, raw) is None
            &&& runs && (raw[n] == 123 || text::has(command, "--message-format=json"@))
                ==> build_kind(command, raw) == Some(observe::InputKind::CargoJson)
            &&& runs && raw[n] != 123 && !text::has(command, "--message-format=json"@)
                ==> build_kind(command, raw) == Some(observe::InputKind::CargoTestText)
        }),
{
    let words = text::words_of(command);
    pairs_are_found(words, "git"@, "diff"@, 0);
    pairs_are_found(words, "cargo"@, "build"@, 0);
    pairs_are_found(words, "cargo"@, "check"@, 0);
    pairs_are_found(words, "cargo"@, "clippy"@, 0);
    pairs_are_found(words, "cargo"@, "test"@, 0);
    objects_are_opened(raw, 0, n);
}

/// What PowerShell makes of text between single quotes: two of them stand for one.
pub open spec fn powershell_reads_from(s: Seq<char>, i: int) -> Seq<char>
    decreases s.len() - i,
{
    if i < 0 || i >= s.len() {
        seq![]
    } else if s[i] == '\'' && i + 1 < s.len() && s[i + 1] == '\'' {
        seq!['\''] + powershell_reads_from(s, i + 2)
    } else {
        seq![s[i]] + powershell_reads_from(s, i + 1)
    }
}

proof fn powershell_reads_on(front: Seq<char>, value: Seq<char>, i: int)
    requires
        0 <= i <= value.len(),
    ensures
        powershell_reads_from(
            front + text::replaced_from(value, '\'', "''"@, i),
            front.len() as int,
        ) == value.skip(i),
    decreases value.len() - i,
{
    reveal_strlit("''");
    let rest = text::replaced_from(value, '\'', "''"@, i);
    let all = front + rest;
    let n = front.len() as int;
    if i < value.len() {
        let next = text::replaced_from(value, '\'', "''"@, i + 1);
        let piece = if value[i] == '\'' {
            "''"@
        } else {
            seq![value[i]]
        };
        assert(rest =~= piece + next);
        powershell_reads_on(front + piece, value, i + 1);
        assert(front + piece + next =~= all);
        assert(value.skip(i) =~= seq![value[i]] + value.skip(i + 1));
        assert(all[n] == value[i]);
        if value[i] == '\'' {
            assert(all[n + 1] == '\'');
        }
    } else {
        assert(value.skip(i) =~= seq![]);
    }
}

/// PowerShell reads quoted text as the text that was quoted, whatever is in it.
pub proof fn powershell_reads_what_was_quoted(value: Seq<char>)
    ensures
        ({
            let quoted = powershell_quoted(value);
            &&& quoted.len() >= 2 && quoted[0] == '\'' && quoted.last() == '\''
            &&& powershell_reads_from(quoted.subrange(1, quoted.len() - 1), 0) == value
        }),
{
    let quoted = powershell_quoted(value);
    let inner = text::replaced_from(value, '\'', "''"@, 0);
    assert(quoted.subrange(1, quoted.len() - 1) =~= inner);
    powershell_reads_on(seq![], value, 0);
    assert(Seq::<char>::empty() + inner =~= inner);
    assert(value.skip(0) =~= value);
}

proof fn shell_reads_in_front(front: Seq<char>, value: Seq<char>, i: int, rest: Seq<char>)
    requires
        0 <= i <= value.len(),
    ensures
        ({
            let inner = text::replaced_from(value, '\'', "'\\''"@, i);
            let all = front + inner + seq!['\''] + rest;
            shell_reads_from(all, front.len() as int, true) == value.skip(i) + shell_reads_from(
                all,
                (front + inner).len() + 1int,
                false,
            )
        }),
    decreases value.len() - i,
{
    reveal_strlit("'\\''");
    let escape = "'\\''"@;
    let inner = text::replaced_from(value, '\'', escape, i);
    let all = front + inner + seq!['\''] + rest;
    let n = front.len() as int;
    let end = shell_reads_from(all, (front + inner).len() + 1int, false);
    if i < value.len() {
        let next = text::replaced_from(value, '\'', escape, i + 1);
        let piece = if value[i] == '\'' {
            escape
        } else {
            seq![value[i]]
        };
        assert(inner =~= piece + next);
        shell_reads_in_front(front + piece, value, i + 1, rest);
        assert(front + piece + next + seq!['\''] + rest =~= all);
        assert((front + piece + next).len() == (front + inner).len());
        assert(value.skip(i) + end =~= seq![value[i]] + (value.skip(i + 1) + end));
        if value[i] == '\'' {
            assert(all[n] == '\'');
            assert(all[n + 1] == '\\');
            assert(all[n + 2] == '\'');
            assert(all[n + 3] == '\'');
            reveal_with_fuel(shell_reads_from, 4);
        } else {
            assert(all[n] == value[i]);
        }
    } else {
        assert(all[n] == '\'');
        assert(value.skip(i) + end =~= end);
    }
}

proof fn shell_reads_plain(s: Seq<char>, i: int, n: int)
    requires
        0 <= i <= n <= s.len(),
        forall|k: int| i <= k < n ==> s[k] != '\'' && #[trigger] s[k] != '\\',
    ensures
        shell_reads_from(s, i, false) == s.subrange(i, n) + shell_reads_from(s, n, false),
    decreases n - i,
{
    if i < n {
        assert(s[i] != '\'' && s[i] != '\\');
        shell_reads_plain(s, i + 1, n);
        assert(s.subrange(i, n) =~= seq![s[i]] + s.subrange(i + 1, n));
        assert(shell_reads_from(s, i, false) =~= s.subrange(i, n) + shell_reads_from(s, n, false));
    } else {
        assert(s.subrange(i, n) + shell_reads_from(s, n, false) =~= shell_reads_from(s, n, false));
    }
}

/// A POSIX shell reads the command that is run instead as the executable, what it shall do and
/// the request, each as it is.
pub proof fn shells_read_the_executor(
    executable: Seq<char>,
    subcommand: Seq<char>,
    request: Seq<char>,
)
    requires
        !subcommand.contains('\'') && !subcommand.contains('\\'),
    ensures
        shell_reads_from(
            executor_command(Shell::Posix, executable, subcommand, request),
            0,
            false,
        ) == executable + " "@ + subcommand + " --request "@ + request,
{
    reveal_strlit(" ");
    reveal_strlit(" --request ");
    let escape = "'\\''"@;
    let front = seq!['\''];
    let inner = text::replaced_from(executable, '\'', escape, 0);
    let middle = " "@ + subcommand + " --request "@;
    let last = posix_quoted(request);
    let all = executor_command(Shell::Posix, executable, subcommand, request);
    assert(all =~= front + inner + seq!['\''] + (middle + last));
    assert(all[0] == '\'');
    shell_reads_in_front(front, executable, 0, middle + last);
    assert(executable.skip(0) =~= executable);
    let a = (front + inner).len() + 1int;
    let b = a + middle.len();
    assert forall|k: int| a <= k < b implies all[k] != '\'' && #[trigger] all[k] != '\\' by {
        assert(all[k] == middle[k - a]);
        let m = k - a - 1;
        if 0 <= m < subcommand.len() {
            assert(middle[k - a] == subcommand[m]);
            assert(subcommand.contains(subcommand[m]));
        } else if m >= subcommand.len() {
            assert(middle[k - a] == " --request "@[m - subcommand.len()]);
        }
    }
    shell_reads_plain(all, a, b);
    assert(all.subrange(a, b) =~= middle);
    let request_inner = text::replaced_from(request, '\'', escape, 0);
    let before = all.take(b).push('\'');
    assert(all =~= before + request_inner + seq!['\''] + seq![]);
    assert(all[b] == '\'');
    shell_reads_in_front(before, request, 0, seq![]);
    assert(request.skip(0) =~= request);
    assert((before + request_inner).len() + 1 == all.len());
    assert(shell_reads_from(all, all.len() as int, false) =~= seq![]);
    assert(shell_reads_from(all, b, false) =~= request);
    assert(shell_reads_from(all, 0, false) =~= executable + (middle + request));
    assert(executable + (middle + request) =~= executable + " "@ + subcommand + " --request "@
        + request);
}

} // verus!
