//! The bounded grammar of commands: words, single quotes and double quotes, and
//! nothing that a shell would expand or join.

use vstd::prelude::*;
use crate::list;
use crate::policy;
use crate::text;

verus! {

/// What has been read of a command.
#[derive(Debug, PartialEq, Eq)]
pub struct Words {
    pub args: Vec<String>,
    pub token: Vec<char>,
    pub quote: Option<char>,
}

pub struct WordsModel {
    pub args: Seq<Seq<char>>,
    pub token: Seq<char>,
    pub quote: Option<char>,
}

impl DeepView for Words {
    type V = WordsModel;

    open spec fn deep_view(&self) -> WordsModel {
        WordsModel { args: self.args.deep_view(), token: self.token@, quote: self.quote }
    }
}

/// A character with a meaning for the shell outside quotes.
pub open spec fn shell_syntax(c: char) -> bool {
    c == ';' || c == '|' || c == '&' || c == '<' || c == '>' || c == '`' || c == '$' || c == '('
        || c == ')' || c == '*' || c == '?' || c == '[' || c == ']' || c == '{' || c == '}' || c
        == '\\'
}

/// A reason for which a command is outside the grammar.
pub open spec fn unsupported(reason: Seq<char>) -> policy::RefusalModel {
    policy::RefusalModel { code: "unsupported_command"@, reason }
}

pub open spec fn out_of_bounds() -> policy::RefusalModel {
    unsupported("command is outside the supported bounded grammar"@)
}

impl WordsModel {
    pub open spec fn begin() -> WordsModel {
        WordsModel { args: seq![], token: seq![], quote: None }
    }

    pub open spec fn with(self, c: char) -> WordsModel {
        WordsModel { token: self.token.push(c), ..self }
    }

    /// The word that has been read ends; an empty one is none.
    pub open spec fn ended(self) -> WordsModel {
        if self.token.len() > 0 {
            WordsModel { args: self.args.push(self.token), token: seq![], ..self }
        } else {
            self
        }
    }
}

/// The words of a command from character `i` on.
pub open spec fn words_from(command: Seq<char>, i: int, words: WordsModel) -> Result<
    Seq<Seq<char>>,
    policy::RefusalModel,
>
    decreases command.len() - i,
{
    if i < 0 || i >= command.len() {
        if words.quote is Some {
            Err(unsupported("command has an unterminated quote"@))
        } else {
            Ok(words.ended().args)
        }
    } else {
        let c = command[i];
        match words.quote {
            Some(active) => if c == active {
                words_from(command, i + 1, WordsModel { quote: None, ..words })
            } else if active == '"' && (c == '$' || c == '`') {
                Err(unsupported("command uses unsupported expansion"@))
            } else if active == '"' && c == '\\' {
                if i + 1 >= command.len() {
                    Err(unsupported("command has an unfinished escape"@))
                } else if command[i + 1] == '\\' || command[i + 1] == '"' {
                    words_from(command, i + 2, words.with(command[i + 1]))
                } else {
                    Err(unsupported("command uses unsupported quoting"@))
                }
            } else {
                words_from(command, i + 1, words.with(c))
            },
            None => if text::ascii_space(c) {
                words_from(command, i + 1, words.ended())
            } else if c == '\'' || c == '"' {
                words_from(command, i + 1, WordsModel { quote: Some(c), ..words })
            } else if shell_syntax(c) {
                Err(unsupported("command uses unsupported shell syntax"@))
            } else {
                words_from(command, i + 1, words.with(c))
            },
        }
    }
}

/// A line break or a null character.
pub open spec fn breaks(s: Seq<char>) -> bool {
    s.contains('\n') || s.contains('\r') || s.contains('\0')
}

/// A word within the bounds.
pub open spec fn valid_arg(arg: Seq<char>) -> bool {
    arg.len() > 0 && text::byte_len(arg) <= policy::MAX_COMMAND_ARG_BYTES && !breaks(arg)
}

/// Words within the bounds: at least one, not too many, and each of them valid.
pub open spec fn valid_argv(argv: Seq<Seq<char>>) -> bool {
    &&& 0 < argv.len() <= policy::MAX_COMMAND_ARGS
    &&& forall|i: int| 0 <= i < argv.len() ==> valid_arg(#[trigger] argv[i])
}

/// The words of a command, where it is within the grammar.
pub open spec fn argv_of(command: Seq<char>) -> Result<Seq<Seq<char>>, policy::RefusalModel> {
    if command.len() == 0 || text::byte_len(command) > policy::MAX_COMMAND_BYTES || breaks(
        command,
    ) {
        Err(out_of_bounds())
    } else {
        match words_from(command, 0, WordsModel::begin()) {
            Ok(argv) => if valid_argv(argv) {
                Ok(argv)
            } else {
                Err(out_of_bounds())
            },
            Err(refusal) => Err(refusal),
        }
    }
}

fn is_shell_syntax(c: char) -> (r: bool)
    ensures
        r == shell_syntax(c),
{
    c == ';' || c == '|' || c == '&' || c == '<' || c == '>' || c == '`' || c == '$' || c == '('
        || c == ')' || c == '*' || c == '?' || c == '[' || c == ']' || c == '{' || c == '}' || c
        == '\\'
}

fn refused(reason: &'static str) -> (r: policy::Refusal)
    ensures
        r.deep_view() == unsupported(reason@),
{
    policy::Refusal { code: "unsupported_command", reason }
}

fn has_breaks(s: &[char]) -> (r: bool)
    ensures
        r == breaks(s@),
{
    text::holds(s, '\n') || text::holds(s, '\r') || text::holds(s, '\0')
}

/// Words are within the bounds.
pub fn validate_argv(argv: &Vec<String>) -> (r: bool)
    ensures
        r == valid_argv(argv.deep_view()),
{
    if argv.len() == 0 || argv.len() > policy::MAX_COMMAND_ARGS {
        return false;
    }
    let ghost all = argv.deep_view();
    let mut i: usize = 0;
    while i < argv.len()
        invariant
            i <= argv@.len(),
            all == argv.deep_view(),
            0 < all.len() <= policy::MAX_COMMAND_ARGS,
            forall|k: int| 0 <= k < i ==> valid_arg(#[trigger] all[k]),
        decreases argv@.len() - i,
    {
        assert(all[i as int] == argv@[i as int]@);
        let chars = text::to_chars(argv[i].as_str());
        if chars.len() == 0 || text::count_bytes(argv[i].as_str()) > policy::MAX_COMMAND_ARG_BYTES
            || has_breaks(chars.as_slice()) {
            assert(!valid_arg(all[i as int]));
            return false;
        }
        i += 1;
    }
    true
}

impl Words {
    fn end(&mut self)
        ensures
            final(self).deep_view() == old(self).deep_view().ended(),
    {
        if self.token.len() > 0 {
            let word = text::to_text(self.token.as_slice());
            list::push(&mut self.args, word);
            self.token = Vec::new();
            assert(self.token@ =~= Seq::empty());
        }
    }
}

fn read_words(command: &[char]) -> (r: Result<Vec<String>, policy::Refusal>)
    ensures
        match (r, words_from(command@, 0, WordsModel::begin())) {
            (Ok(argv), Ok(a)) => argv.deep_view() == a,
            (Err(refusal), Err(e)) => refusal.deep_view() == e,
            _ => false,
        },
{
    let mut words = Words { args: Vec::new(), token: Vec::new(), quote: None };
    assert(words.deep_view().args =~= Seq::empty());
    assert(words.deep_view().token =~= Seq::empty());
    let count: usize = command.len();
    let mut i: usize = 0;
    while i < count
        invariant
            i <= count,
            count == command@.len(),
            words_from(command@, 0, WordsModel::begin()) == words_from(
                command@,
                i as int,
                words.deep_view(),
            ),
        decreases count - i,
    {
        let c = command[i];
        match words.quote {
            Some(active) => {
                if c == active {
                    words.quote = None;
                } else if active == '"' && (c == '$' || c == '`') {
                    return Err(refused("command uses unsupported expansion"));
                } else if active == '"' && c == '\\' {
                    if i == count - 1 {
                        return Err(refused("command has an unfinished escape"));
                    }
                    let escaped = command[i + 1];
                    if escaped != '\\' && escaped != '"' {
                        return Err(refused("command uses unsupported quoting"));
                    }
                    words.token.push(escaped);
                    i += 1;
                } else {
                    words.token.push(c);
                }
            },
            None => {
                if text::is_ascii_space(c) {
                    words.end();
                } else if c == '\'' || c == '"' {
                    words.quote = Some(c);
                } else if is_shell_syntax(c) {
                    return Err(refused("command uses unsupported shell syntax"));
                } else {
                    words.token.push(c);
                }
            },
        }
        i += 1;
    }
    if words.quote.is_some() {
        return Err(refused("command has an unterminated quote"));
    }
    words.end();
    Ok(words.args)
}

/// The words of a command, where it is within the grammar.
pub fn parse_bash(command: &str) -> (r: Result<Vec<String>, policy::Refusal>)
    ensures
        match (r, argv_of(command@)) {
            (Ok(argv), Ok(a)) => argv.deep_view() == a,
            (Err(refusal), Err(e)) => refusal.deep_view() == e,
            _ => false,
        },
{
    let chars = text::to_chars(command);
    if chars.len() == 0 || text::count_bytes(command) > policy::MAX_COMMAND_BYTES || has_breaks(
        chars.as_slice(),
    ) {
        return Err(refused("command is outside the supported bounded grammar"));
    }
    match read_words(chars.as_slice()) {
        Ok(argv) => if validate_argv(&argv) {
            Ok(argv)
        } else {
            Err(refused("command is outside the supported bounded grammar"))
        },
        Err(refusal) => Err(refusal),
    }
}

/// A program that deletes files, under any case.
pub open spec fn deletes(program: Seq<char>) -> bool {
    let program = text::lowered(program);
    program == "rm"@ || program == "rmdir"@ || program == "rd"@ || program == "del"@ || program
        == "erase"@ || program == "remove-item"@
}

/// Some word from `i` on is the given one.
pub open spec fn has_arg_from(argv: Seq<Seq<char>>, arg: Seq<char>, i: int) -> bool
    decreases argv.len() - i,
{
    if i < 0 || i >= argv.len() {
        false
    } else {
        argv[i] == arg || has_arg_from(argv, arg, i + 1)
    }
}

/// Some word from `i` on is a flag with an `f` in it.
pub open spec fn has_force_from(argv: Seq<Seq<char>>, i: int) -> bool
    decreases argv.len() - i,
{
    if i < 0 || i >= argv.len() {
        false
    } else {
        (text::begins(argv[i], "-"@) && argv[i].contains('f')) || has_force_from(argv, i + 1)
    }
}

/// A Git command that discards work: `restore`, `reset --hard`, a forced `clean`,
/// or `checkout --`.
pub open spec fn git_discards(argv: Seq<Seq<char>>) -> bool {
    argv.len() > 1 && {
        let subcommand = text::lowered(argv[1]);
        ||| subcommand == "restore"@
        ||| subcommand == "reset"@ && has_arg_from(argv, "--hard"@, 2)
        ||| subcommand == "clean"@ && has_force_from(argv, 2)
        ||| subcommand == "checkout"@ && has_arg_from(argv, "--"@, 2)
    }
}

/// Words that are denied whatever the policy says.
pub open spec fn destructive_argv(argv: Seq<Seq<char>>) -> bool {
    argv.len() > 0 && (deletes(argv[0]) || (text::lowered(argv[0]) == "git"@ && git_discards(argv)))
}

/// A command that is denied whatever the policy says: its first word deletes
/// files, within the grammar or not, or its words discard work.
pub open spec fn destructive(command: Seq<char>) -> bool {
    deletes(text::first_ascii_word(command)) || (argv_of(command) matches Ok(argv)
        && destructive_argv(argv))
}

fn is_destructive_program(program: &[char]) -> (r: bool)
    ensures
        r == deletes(program@),
{
    let lower = text::to_lower(program);
    let program = lower.as_slice();
    text::is(program, "rm") || text::is(program, "rmdir") || text::is(program, "rd") || text::is(
        program,
        "del",
    ) || text::is(program, "erase") || text::is(program, "remove-item")
}

fn has_arg(argv: &Vec<String>, arg: &str) -> (r: bool)
    ensures
        r == has_arg_from(argv.deep_view(), arg@, 2),
{
    let ghost all = argv.deep_view();
    let mut i: usize = 2;
    while i < argv.len()
        invariant
            2 <= i,
            all == argv.deep_view(),
            has_arg_from(all, arg@, 2) == has_arg_from(all, arg@, i as int),
        decreases argv@.len() - i,
    {
        assert(all[i as int] == argv@[i as int]@);
        if text::same_text(argv[i].as_str(), arg) {
            return true;
        }
        i += 1;
    }
    false
}

fn has_force(argv: &Vec<String>) -> (r: bool)
    ensures
        r == has_force_from(argv.deep_view(), 2),
{
    let ghost all = argv.deep_view();
    let mut i: usize = 2;
    while i < argv.len()
        invariant
            2 <= i,
            all == argv.deep_view(),
            has_force_from(all, 2) == has_force_from(all, i as int),
        decreases argv@.len() - i,
    {
        assert(all[i as int] == argv@[i as int]@);
        let arg = text::to_chars(argv[i].as_str());
        if text::starts_with(arg.as_slice(), "-") && text::holds(arg.as_slice(), 'f') {
            return true;
        }
        i += 1;
    }
    false
}

/// Words that are denied whatever the policy says.
pub fn is_builtin_destructive_argv(argv: &Vec<String>) -> (r: bool)
    ensures
        r == destructive_argv(argv.deep_view()),
{
    let ghost all = argv.deep_view();
    if argv.len() == 0 {
        return false;
    }
    assert(all[0] == argv@[0]@);
    let program = text::to_chars(argv[0].as_str());
    if is_destructive_program(program.as_slice()) {
        return true;
    }
    if !text::is(text::to_lower(program.as_slice()).as_slice(), "git") {
        return false;
    }
    if argv.len() < 2 {
        return false;
    }
    assert(all[1] == argv@[1]@);
    let subcommand = text::to_lower(text::to_chars(argv[1].as_str()).as_slice());
    text::is(subcommand.as_slice(), "restore") || (text::is(subcommand.as_slice(), "reset")
        && has_arg(argv, "--hard")) || (text::is(subcommand.as_slice(), "clean") && has_force(argv))
        || (text::is(subcommand.as_slice(), "checkout") && has_arg(argv, "--"))
}

/// A command that is denied whatever the policy says.
pub fn is_builtin_destructive_command(command: &str) -> (r: bool)
    ensures
        r == destructive(command@),
{
    let chars = text::to_chars(command);
    if is_destructive_program(text::ascii_word(chars.as_slice())) {
        return true;
    }
    match parse_bash(command) {
        Ok(argv) => is_builtin_destructive_argv(&argv),
        Err(_) => false,
    }
}

} // verus!
