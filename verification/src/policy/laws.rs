//! What a policy promises of the patches and the commands that are put to it.

use vstd::prelude::*;
use crate::policy::bash::{self, WordsModel};
use crate::policy::{
    evaluation_for, has_rule_from, ChangePolicyModel, Decision, PolicyErrorModel, PolicyLoadModel,
    PolicyState, RefusalModel, ToolInputModel, MAX_COMMAND_ARGS, MAX_COMMAND_BYTES,
};
use crate::text;

verus! {

broadcast use vstd::string::group_string_axioms;

proof fn rules_are_found(rules: Seq<Seq<Seq<char>>>, argv: Seq<Seq<char>>, i: int)
    requires
        0 <= i,
    ensures
        has_rule_from(rules, argv, i) <==> exists|k: int|
            i <= k < rules.len() && #[trigger] rules[k] == argv,
    decreases rules.len() - i,
{
    if i < rules.len() {
        rules_are_found(rules, argv, i + 1);
        if exists|k: int| i <= k < rules.len() && #[trigger] rules[k] == argv {
            let k = choose|k: int| i <= k < rules.len() && #[trigger] rules[k] == argv;
            if k > i {
                assert(i + 1 <= k);
            }
        }
    }
}

/// Under every policy that is active, a command that is exactly a rule in the lists of denied
/// or of destructive commands is denied; one that is exactly a rule to ask about, and neither
/// of those nor destructive by itself, is asked about; and every other one that is not
/// destructive by itself is allowed.
pub proof fn declared_commands_are_decided(
    policy: ChangePolicyModel,
    command: Seq<char>,
    argv: Seq<Seq<char>>,
    escaping: Seq<Seq<char>>,
)
    requires
        bash::argv_of(command) == Ok::<Seq<Seq<char>>, RefusalModel>(argv),
    ensures
        ({
            let rules = policy.commands;
            let denied = rules.deny.contains(argv) || rules.destructive.contains(argv);
            let asked = rules.ask.contains(argv);
            let evaluation = evaluation_for(
                Ok(PolicyLoadModel::Active(policy)),
                ToolInputModel::Bash(command),
                escaping,
            );
            &&& evaluation.state == PolicyState::Active
            &&& evaluation.policy_digest == Some(policy.digest)
            &&& denied ==> evaluation.decision == Some(Decision::Deny) && evaluation.code
                == "denied_by_policy"@
            &&& !denied && asked && !bash::destructive(command) ==> evaluation.decision == Some(
                Decision::Ask,
            ) && evaluation.code == "approval_required"@
            &&& !denied && !asked && !bash::destructive(command) ==> evaluation.decision == Some(
                Decision::Allow,
            ) && evaluation.code == "allowed"@
        }),
{
    rules_are_found(policy.commands.deny, argv, 0);
    rules_are_found(policy.commands.destructive, argv, 0);
    rules_are_found(policy.commands.ask, argv, 0);
}

/// A command that means the loss of files by itself, whoever runs it: its program is one that
/// deletes, or it is a call of Git that throws changes away.
pub open spec fn loses_files(argv: Seq<Seq<char>>) -> bool {
    let program = text::lowered(argv[0]);
    ||| program == "rm"@
    ||| program == "rmdir"@
    ||| program == "rd"@
    ||| program == "del"@
    ||| program == "erase"@
    ||| program == "remove-item"@
    ||| program == "git"@ && argv.len() > 1 && {
        let action = text::lowered(argv[1]);
        ||| action == "restore"@
        ||| action == "reset"@ && argv.skip(2).contains("--hard"@)
        ||| action == "checkout"@ && argv.skip(2).contains("--"@)
        ||| action == "clean"@ && exists|k: int|
            2 <= k < argv.len() && (#[trigger] argv[k]).len() > 0 && argv[k][0] == '-'
                && argv[k].contains('f')
    }
}

proof fn args_are_found(argv: Seq<Seq<char>>, arg: Seq<char>, i: int)
    requires
        0 <= i <= argv.len(),
    ensures
        bash::has_arg_from(argv, arg, i) <==> argv.skip(i).contains(arg),
    decreases argv.len() - i,
{
    let rest = argv.skip(i);
    if i < argv.len() {
        args_are_found(argv, arg, i + 1);
        assert(rest[0] == argv[i]);
        if argv.skip(i + 1).contains(arg) {
            let k = argv.skip(i + 1).index_of(arg);
            assert(rest[k + 1] == argv.skip(i + 1)[k]);
        }
        if rest.contains(arg) {
            let k = rest.index_of(arg);
            if k > 0 {
                assert(argv.skip(i + 1)[k - 1] == rest[k]);
            }
        }
    }
}

proof fn forces_are_found(argv: Seq<Seq<char>>, i: int)
    requires
        0 <= i,
    ensures
        bash::has_force_from(argv, i) <==> exists|k: int|
            i <= k < argv.len() && (#[trigger] argv[k]).len() > 0 && argv[k][0] == '-'
                && argv[k].contains('f'),
    decreases argv.len() - i,
{
    if i < argv.len() {
        forces_are_found(argv, i + 1);
        reveal_strlit("-");
        let arg = argv[i];
        if arg.len() > 0 {
            assert(arg.subrange(0, 1)[0] == arg[0]);
            if arg[0] == '-' {
                assert(arg.subrange(0, 1) =~= "-"@);
            }
        }
        if exists|k: int|
            i <= k < argv.len() && (#[trigger] argv[k]).len() > 0 && argv[k][0] == '-'
                && argv[k].contains('f') {
            let k = choose|k: int|
                i <= k < argv.len() && (#[trigger] argv[k]).len() > 0 && argv[k][0] == '-'
                    && argv[k].contains('f');
            if k > i {
                assert(i + 1 <= k);
            }
        }
    }
}

/// A command that can be read and loses files is denied by every policy that is there, also by
/// one that allows everything and by one that cannot be used. One that loses none is never held
/// to be destructive, where its first word is no program that deletes.
pub proof fn losses_are_denied(
    load: Result<PolicyLoadModel, PolicyErrorModel>,
    command: Seq<char>,
    argv: Seq<Seq<char>>,
    escaping: Seq<Seq<char>>,
)
    requires
        bash::argv_of(command) == Ok::<Seq<Seq<char>>, RefusalModel>(argv),
        load != Ok::<PolicyLoadModel, PolicyErrorModel>(PolicyLoadModel::Disabled),
    ensures
        loses_files(argv) ==> evaluation_for(
            load,
            ToolInputModel::Bash(command),
            escaping,
        ).decision == Some(Decision::Deny),
        !loses_files(argv) && text::first_ascii_word(command) == argv[0] ==> !bash::destructive(
            command,
        ),
{
    if argv.len() > 1 {
        args_are_found(argv, "--hard"@, 2);
        args_are_found(argv, "--"@, 2);
        forces_are_found(argv, 2);
    }
}

proof fn word_ends(s: Seq<char>, i: int, n: int)
    requires
        0 <= i <= n < s.len(),
        text::ascii_space(s[n]),
        forall|k: int| i <= k < n ==> !text::ascii_space(#[trigger] s[k]),
    ensures
        text::ascii_word_end(s, i) == n,
    decreases n - i,
{
    if i < n {
        word_ends(s, i + 1, n);
    }
}

/// A command that begins with a program that deletes is denied by every policy that is there,
/// whatever follows the program, also where the rest cannot be read.
pub proof fn deletions_are_denied(
    load: Result<PolicyLoadModel, PolicyErrorModel>,
    program: Seq<char>,
    rest: Seq<char>,
    escaping: Seq<Seq<char>>,
)
    requires
        load != Ok::<PolicyLoadModel, PolicyErrorModel>(PolicyLoadModel::Disabled),
        program.len() > 0,
        forall|k: int| 0 <= k < program.len() ==> !text::ascii_space(#[trigger] program[k]),
        text::lowered(program) == "rm"@ || text::lowered(program) == "rmdir"@ || text::lowered(
            program,
        ) == "rd"@ || text::lowered(program) == "del"@ || text::lowered(program) == "erase"@
            || text::lowered(program) == "remove-item"@,
    ensures
        evaluation_for(
            load,
            ToolInputModel::Bash(program + seq![' '] + rest),
            escaping,
        ).decision == Some(Decision::Deny),
{
    let command = program + seq![' '] + rest;
    assert(command[0] == program[0]);
    assert(text::skip_ascii_space(command, 0) == 0);
    assert forall|k: int| 0 <= k < program.len() implies !text::ascii_space(
        #[trigger] command[k],
    ) by {
        assert(command[k] == program[k]);
    }
    assert(command[program.len() as int] == ' ');
    word_ends(command, 0, program.len() as int);
    assert(command.subrange(0, program.len() as int) =~= program);
}

/// A character that stands for itself outside quotes.
pub open spec fn plain_char(c: char) -> bool {
    !text::ascii_space(c) && c != '\'' && c != '"' && !bash::shell_syntax(c)
}

proof fn plain_word_is_read(command: Seq<char>, i: int, words: WordsModel, word: Seq<char>, k: int)
    requires
        0 <= k <= word.len(),
        0 <= i,
        i + word.len() - k <= command.len(),
        words.quote is None,
        words.token == word.take(k),
        forall|n: int| 0 <= n < word.len() ==> plain_char(#[trigger] word[n]),
        forall|n: int| k <= n < word.len() ==> command[i + n - k] == #[trigger] word[n],
    ensures
        bash::words_from(command, i, words) == bash::words_from(
            command,
            i + word.len() - k,
            WordsModel { token: word, ..words },
        ),
    decreases word.len() - k,
{
    if k < word.len() {
        assert(plain_char(word[k]));
        assert(command[i + k - k] == word[k]);
        assert(word.take(k).push(word[k]) =~= word.take(k + 1));
        plain_word_is_read(command, i + 1, words.with(word[k]), word, k + 1);
    } else {
        assert(word.take(k) =~= word);
    }
}

proof fn quoted_word_is_read(command: Seq<char>, i: int, words: WordsModel, word: Seq<char>, k: int)
    requires
        0 <= k <= word.len(),
        0 <= i,
        i + word.len() - k < command.len(),
        words.quote == Some('\''),
        words.token == word.take(k),
        !word.contains('\''),
        forall|n: int| k <= n < word.len() ==> command[i + n - k] == #[trigger] word[n],
        command[i + word.len() - k] == '\'',
    ensures
        bash::words_from(command, i, words) == bash::words_from(
            command,
            i + word.len() - k + 1,
            WordsModel { token: word, quote: None, ..words },
        ),
    decreases word.len() - k,
{
    if k < word.len() {
        assert(command[i + k - k] == word[k]);
        assert(word.contains(word[k]));
        assert(word.take(k).push(word[k]) =~= word.take(k + 1));
        quoted_word_is_read(command, i + 1, words.with(word[k]), word, k + 1);
    } else {
        assert(word.take(k) =~= word);
    }
}

/// Words as a user writes them: each as it is or in single quotes, with a space between each
/// two.
pub open spec fn written_words(words: Seq<Seq<char>>, quoted: Seq<bool>, i: int) -> Seq<char>
    decreases words.len() - i,
{
    if i < 0 || i >= words.len() {
        seq![]
    } else {
        let word = if quoted[i] {
            seq!['\''] + words[i] + seq!['\'']
        } else {
            words[i]
        };
        (if i > 0 {
            seq![' ']
        } else {
            seq![]
        }) + word + written_words(words, quoted, i + 1)
    }
}

proof fn words_are_read_from(
    command: Seq<char>,
    p: int,
    words: Seq<Seq<char>>,
    quoted: Seq<bool>,
    i: int,
    scan: WordsModel,
)
    requires
        0 <= i <= words.len(),
        0 <= p <= command.len(),
        quoted.len() == words.len(),
        forall|k: int| 0 <= k < words.len() ==> (#[trigger] words[k]).len() > 0,
        forall|k: int| 0 <= k < words.len() && quoted[k] ==> !(#[trigger] words[k]).contains('\''),
        forall|k: int, n: int|
            0 <= k < words.len() && !quoted[k] && 0 <= n < words[k].len() ==> plain_char(
                #[trigger] words[k][n],
            ),
        command.skip(p) == written_words(words, quoted, i),
        scan.quote is None,
        scan.ended().args == words.take(i),
        i == 0 ==> scan.token.len() == 0,
    ensures
        bash::words_from(command, p, scan) == Ok::<Seq<Seq<char>>, RefusalModel>(words),
    decreases words.len() - i,
{
    let rest = command.skip(p);
    if i < words.len() {
        let word = words[i];
        let later = written_words(words, quoted, i + 1);
        let gap = if i > 0 {
            1int
        } else {
            0int
        };
        let start = if i > 0 {
            scan.ended()
        } else {
            scan
        };
        assert forall|k: int| 0 <= k < rest.len() implies rest[k] == command[p + k] by {}
        if i > 0 {
            assert(rest[0] == ' ');
            assert(command[p] == ' ');
            assert(bash::words_from(command, p, scan) == bash::words_from(command, p + 1, start));
        }
        assert(start.token.len() == 0);
        assert(start.token =~= word.take(0));
        assert(start.args == words.take(i));
        let next = WordsModel { token: word, ..start };
        if quoted[i] {
            assert(rest[gap] == '\'');
            assert(command[p + gap] == '\'');
            assert forall|n: int| 0 <= n < word.len() implies command[p + gap + 1 + n - 0]
                == #[trigger] word[n] by {
                assert(rest[gap + 1 + n] == word[n]);
            }
            assert(rest[gap + 1 + word.len()] == '\'');
            assert(rest.len() == gap + word.len() + 2 + later.len());
            quoted_word_is_read(
                command,
                p + gap + 1,
                WordsModel { quote: Some('\''), ..start },
                word,
                0,
            );
            let q = p + gap + word.len() + 2;
            assert(command.skip(q) =~= later) by {
                assert(rest.skip(gap + word.len() + 2) =~= later);
            }
            assert(next.ended().args =~= words.take(i + 1));
            words_are_read_from(command, q, words, quoted, i + 1, next);
        } else {
            assert forall|n: int| 0 <= n < word.len() implies command[p + gap + n - 0]
                == #[trigger] word[n] by {
                assert(rest[gap + n] == word[n]);
            }
            assert forall|n: int| 0 <= n < word.len() implies plain_char(#[trigger] word[n]) by {
                assert(plain_char(words[i][n]));
            }
            assert(rest.len() == gap + word.len() + later.len());
            plain_word_is_read(command, p + gap, start, word, 0);
            let q = p + gap + word.len();
            assert(command.skip(q) =~= later) by {
                assert(rest.skip(gap + word.len()) =~= later);
            }
            assert(next.ended().args =~= words.take(i + 1));
            words_are_read_from(command, q, words, quoted, i + 1, next);
        }
    } else {
        assert(rest.len() == 0);
        assert(words.take(i) =~= words);
    }
}

/// A command that is written word by word is read as these words: a word of plain characters
/// stands for itself, and so does every word in single quotes that holds none.
pub proof fn written_words_are_read(words: Seq<Seq<char>>, quoted: Seq<bool>)
    requires
        quoted.len() == words.len(),
        0 < words.len() <= MAX_COMMAND_ARGS,
        forall|k: int| 0 <= k < words.len() ==> bash::valid_arg(#[trigger] words[k]),
        forall|k: int| 0 <= k < words.len() && quoted[k] ==> !(#[trigger] words[k]).contains('\''),
        forall|k: int, n: int|
            0 <= k < words.len() && !quoted[k] && 0 <= n < words[k].len() ==> plain_char(
                #[trigger] words[k][n],
            ),
        text::byte_len(written_words(words, quoted, 0)) <= MAX_COMMAND_BYTES,
        !bash::breaks(written_words(words, quoted, 0)),
    ensures
        bash::argv_of(written_words(words, quoted, 0)) == Ok::<Seq<Seq<char>>, RefusalModel>(words),
{
    let command = written_words(words, quoted, 0);
    assert(command.skip(0) =~= command);
    assert(words.take(0) =~= WordsModel::begin().args);
    assert forall|k: int| 0 <= k < words.len() implies (#[trigger] words[k]).len() > 0 by {
        assert(bash::valid_arg(words[k]));
    }
    words_are_read_from(command, 0, words, quoted, 0, WordsModel::begin());
    assert(words[0].len() > 0);
    assert(command.len() > 0);
}

/// A text between double quotes: double quotes and backslashes in it stand behind a backslash.
pub open spec fn escaped(word: Seq<char>, i: int) -> Seq<char>
    decreases word.len() - i,
{
    if i < 0 || i >= word.len() {
        seq![]
    } else if word[i] == '"' || word[i] == '\\' {
        seq!['\\', word[i]] + escaped(word, i + 1)
    } else {
        seq![word[i]] + escaped(word, i + 1)
    }
}

proof fn escaped_word_is_read(
    command: Seq<char>,
    p: int,
    words: WordsModel,
    word: Seq<char>,
    i: int,
)
    requires
        0 <= i <= word.len(),
        0 <= p <= command.len(),
        words.quote == Some('"'),
        words.token == word.take(i),
        !word.contains('$') && !word.contains('`'),
        command.skip(p) == escaped(word, i) + seq!['"'],
    ensures
        bash::words_from(command, p, words) == bash::words_from(
            command,
            command.len() as int,
            WordsModel { token: word, quote: None, ..words },
        ),
    decreases word.len() - i,
{
    let rest = command.skip(p);
    assert forall|k: int| 0 <= k < rest.len() implies #[trigger] rest[k] == command[p + k] by {}
    if i < word.len() {
        let c = word[i];
        let later = escaped(word, i + 1);
        assert(word.contains(c));
        assert(word.take(i).push(c) =~= word.take(i + 1));
        if c == '"' || c == '\\' {
            assert(rest[0] == '\\' && rest[1] == c);
            assert(command[p] == '\\' && command[p + 1] == c);
            assert(command.skip(p + 2) =~= rest.skip(2));
            assert(rest.skip(2) =~= later + seq!['"']);
            escaped_word_is_read(command, p + 2, words.with(c), word, i + 1);
        } else {
            assert(rest[0] == c);
            assert(command[p] == c);
            assert(command.skip(p + 1) =~= rest.skip(1));
            assert(rest.skip(1) =~= later + seq!['"']);
            escaped_word_is_read(command, p + 1, words.with(c), word, i + 1);
        }
    } else {
        assert(rest[0] == '"');
        assert(command[p] == '"');
        assert(rest.len() == 1);
        assert(word.take(i) =~= word);
        assert(words.token == word);
    }
}

/// A text between double quotes is read as itself, with a backslash in front of each double
/// quote and each backslash in it, as long as it holds nothing that a shell would expand.
pub proof fn double_quoted_words_are_read(word: Seq<char>)
    requires
        bash::valid_arg(word),
        !word.contains('$') && !word.contains('`'),
        text::byte_len(seq!['"'] + escaped(word, 0) + seq!['"']) <= MAX_COMMAND_BYTES,
        !bash::breaks(seq!['"'] + escaped(word, 0) + seq!['"']),
    ensures
        bash::argv_of(seq!['"'] + escaped(word, 0) + seq!['"']) == Ok::<
            Seq<Seq<char>>,
            RefusalModel,
        >(seq![word]),
{
    let command = seq!['"'] + escaped(word, 0) + seq!['"'];
    let begin = WordsModel::begin();
    let quoted = WordsModel { quote: Some('"'), ..begin };
    assert(command[0] == '"');
    assert(command.skip(1) =~= escaped(word, 0) + seq!['"']);
    assert(quoted.token =~= word.take(0));
    escaped_word_is_read(command, 1, quoted, word, 0);
    let end = WordsModel { token: word, quote: None, ..quoted };
    assert(end.ended().args =~= seq![word]);
    assert(bash::words_from(command, 0, begin) == bash::words_from(command, 1, quoted));
}

proof fn open_quotes_are_refused_from(command: Seq<char>, i: int, words: WordsModel, q: char)
    requires
        0 <= i <= command.len(),
        words.quote == Some(q),
        forall|k: int| i <= k < command.len() ==> #[trigger] command[k] != q,
    ensures
        bash::words_from(command, i, words) is Err,
    decreases command.len() - i,
{
    if i < command.len() {
        assert(command[i] != q);
        if !(q == '"' && (command[i] == '$' || command[i] == '`' || command[i] == '\\')) {
            open_quotes_are_refused_from(command, i + 1, words.with(command[i]), q);
        } else if q == '"' && command[i] == '\\' && i + 1 < command.len() {
            assert(command[i + 1] != q);
            open_quotes_are_refused_from(command, i + 2, words.with(command[i + 1]), q);
        }
    }
}

/// A quote that is never closed is not read.
pub proof fn open_quotes_are_refused(rest: Seq<char>, q: char)
    requires
        q == '\'' || q == '"',
        !rest.contains(q),
    ensures
        bash::argv_of(seq![q] + rest) is Err,
{
    let command = seq![q] + rest;
    let quoted = WordsModel { quote: Some(q), ..WordsModel::begin() };
    assert(command[0] == q);
    assert forall|k: int| 1 <= k < command.len() implies #[trigger] command[k] != q by {
        assert(command[k] == rest[k - 1]);
        assert(rest.contains(rest[k - 1]));
    }
    open_quotes_are_refused_from(command, 1, quoted, q);
}

/// A character that a shell does not take for itself outside quotes.
pub open spec fn special_char(c: char) -> bool {
    c == ';' || c == '|' || c == '&' || c == '<' || c == '>' || c == '`' || c == '$' || c == '('
        || c == ')' || c == '*' || c == '?' || c == '[' || c == ']' || c == '{' || c == '}' || c
        == '\\'
}

proof fn special_chars_are_refused_from(command: Seq<char>, i: int, words: WordsModel, k: int)
    requires
        0 <= i <= k < command.len(),
        words.quote is None,
        !command.contains('\''),
        !command.contains('"'),
        special_char(command[k]),
    ensures
        bash::words_from(command, i, words) is Err,
    decreases k - i,
{
    assert(command.contains(command[i]));
    if i < k {
        if text::ascii_space(command[i]) {
            special_chars_are_refused_from(command, i + 1, words.ended(), k);
        } else if !bash::shell_syntax(command[i]) {
            special_chars_are_refused_from(command, i + 1, words.with(command[i]), k);
        }
    }
}

/// A command without quotes that holds a character with a meaning to a shell is not read, so
/// that nothing but a deletion is decided of it, whatever the policy lists.
pub proof fn composed_commands_are_not_read(
    policy: ChangePolicyModel,
    command: Seq<char>,
    k: int,
    escaping: Seq<Seq<char>>,
)
    requires
        0 <= k < command.len(),
        special_char(command[k]),
        !command.contains('\''),
        !command.contains('"'),
    ensures
        bash::argv_of(command) is Err,
        ({
            let evaluation = evaluation_for(
                Ok(PolicyLoadModel::Active(policy)),
                ToolInputModel::Bash(command),
                escaping,
            );
            &&& evaluation.decision is None || evaluation.decision == Some(Decision::Deny)
            &&& evaluation.decision is None ==> evaluation.code == "unsupported_command"@
        }),
{
    special_chars_are_refused_from(command, 0, WordsModel::begin(), k);
}

} // verus!
