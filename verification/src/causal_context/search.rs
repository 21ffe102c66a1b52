//! The one search that is recognised.

use vstd::prelude::*;
use crate::text;

verus! {

broadcast use vstd::string::group_string_axioms;

/// The most bytes that an identifier may have, without quotes.
pub const MAX_IDENTIFIER_BYTES: usize = 128;

/// The search for one Rust identifier, with eight lines of context, from the root of the
/// workspace.
#[derive(Clone, Debug, PartialEq, Eq)]
pub struct ExactSearch {
    pub identifier: String,
}

/// A character that an identifier may begin with.
pub open spec fn identifier_start(c: char) -> bool {
    text::ascii_letter(c) || c == '_'
}

/// A character that an identifier may hold.
pub open spec fn identifier_char(c: char) -> bool {
    text::ascii_alphanumeric(c) || c == '_'
}

/// An ASCII Rust identifier that is not too long.
pub open spec fn identifier(s: Seq<char>) -> bool {
    &&& 0 < s.len() <= MAX_IDENTIFIER_BYTES
    &&& identifier_start(s[0])
    &&& forall|i: int| 1 <= i < s.len() ==> identifier_char(#[trigger] s[i])
}

/// A character that a command may hold.
pub open spec fn command_char(c: char) -> bool {
    (c as u32) < 128 && c != '\r' && c != '\n' && c != '\t'
}

pub open spec fn is_quote(c: char) -> bool {
    c == '\'' || c == '"'
}

/// What stands between the quotes where there are two of a kind; text with any other quote
/// at an end stands for nothing.
pub open spec fn unquoted(s: Seq<char>) -> Option<Seq<char>> {
    if s.len() == 0 {
        None
    } else if s.len() >= 2 && is_quote(s[0]) && s[0] == s.last() {
        Some(s.subrange(1, s.len() - 1))
    } else if is_quote(s[0]) || is_quote(s.last()) {
        None
    } else {
        Some(s)
    }
}

/// The identifier that a command searches for, where it is the recognised search.
pub open spec fn searched(command: Seq<char>) -> Option<Seq<char>> {
    if exists|i: int| 0 <= i < command.len() && !command_char(#[trigger] command[i]) {
        None
    } else {
        match text::after_prefix(command, "rg -n -C 8 -- "@) {
            None => None,
            Some(rest) => match text::before_suffix(rest, " ."@) {
                None => None,
                Some(word) => if word.contains(' ') {
                    None
                } else {
                    match unquoted(word) {
                        Some(name) => if identifier(name) {
                            Some(name)
                        } else {
                            None
                        },
                        None => None,
                    }
                },
            },
        }
    }
}

impl ExactSearch {
    /// The identifier, without quotes.
    pub fn identifier(&self) -> (r: &str)
        ensures
            r@ == self.identifier@,
    {
        self.identifier.as_str()
    }

    /// The command as it is written.
    pub fn command(&self) -> (r: String)
        ensures
            r@ == "rg -n -C 8 -- "@ + self.identifier@ + " ."@,
    {
        let front = text::concat("rg -n -C 8 -- ", self.identifier.as_str());
        text::concat(front.as_str(), " .")
    }

    /// The arguments of the command, which no shell sees.
    pub fn argv(&self) -> (r: [&str; 6])
        ensures
            r@[0]@ == "-n"@,
            r@[1]@ == "-C"@,
            r@[2]@ == "8"@,
            r@[3]@ == "--"@,
            r@[4]@ == self.identifier@,
            r@[5]@ == "."@,
    {
        ["-n", "-C", "8", "--", self.identifier.as_str(), "."]
    }

    /// A search for the same identifier.
    pub fn duplicate(&self) -> (r: ExactSearch)
        ensures
            r.identifier@ == self.identifier@,
    {
        ExactSearch { identifier: text::copy(self.identifier.as_str()) }
    }
}

fn is_identifier_chars(s: &[char]) -> (r: bool)
    ensures
        r == identifier(s@),
{
    let count: usize = s.len();
    if count == 0 || count > MAX_IDENTIFIER_BYTES {
        return false;
    }
    if !text::is_letter(s[0]) && s[0] != '_' {
        return false;
    }
    let mut i: usize = 1;
    while i < count
        invariant
            1 <= i <= count,
            count == s@.len(),
            forall|k: int| 1 <= k < i ==> identifier_char(#[trigger] s@[k]),
        decreases count - i,
    {
        if !text::is_alphanumeric(s[i]) && s[i] != '_' {
            assert(!identifier_char(s@[i as int]));
            return false;
        }
        i += 1;
    }
    true
}

/// An ASCII Rust identifier that is not too long.
pub fn is_identifier(name: &str) -> (r: bool)
    ensures
        r == identifier(name@),
{
    is_identifier_chars(text::to_chars(name).as_slice())
}

/// The search that a command is, where it is the recognised one.
pub fn parse_exact_search(command: &str) -> (r: Option<ExactSearch>)
    ensures
        match r {
            Some(search) => searched(command@) == Some(search.identifier@),
            None => searched(command@) is None,
        },
{
    let chars = text::to_chars(command);
    let mut i: usize = 0;
    while i < chars.len()
        invariant
            i <= chars@.len(),
            chars@ == command@,
            forall|k: int| 0 <= k < i ==> command_char(#[trigger] chars@[k]),
        decreases chars@.len() - i,
    {
        let c = chars[i];
        if (c as u32) >= 128 || c == '\r' || c == '\n' || c == '\t' {
            assert(!command_char(command@[i as int]));
            return None;
        }
        i += 1;
    }
    let rest = match text::strip_prefix(chars.as_slice(), "rg -n -C 8 -- ") {
        Some(rest) => rest,
        None => {
            return None;
        },
    };
    let word = match text::strip_suffix(rest, " .") {
        Some(word) => word,
        None => {
            return None;
        },
    };
    if text::holds(word, ' ') {
        return None;
    }
    let count: usize = word.len();
    if count == 0 {
        return None;
    }
    let first = word[0];
    let last = word[count - 1];
    let name = if count >= 2 && (first == '\'' || first == '"') && first == last {
        vstd::slice::slice_subrange(word, 1, count - 1)
    } else if first == '\'' || first == '"' || last == '\'' || last == '"' {
        return None;
    } else {
        word
    };
    if is_identifier_chars(name) {
        Some(ExactSearch { identifier: text::to_text(name) })
    } else {
        None
    }
}

/// The command that a search is written as, with what may stand around the identifier.
pub open spec fn written_search(name: Seq<char>, quote: Seq<char>) -> Seq<char> {
    "rg -n -C 8 -- "@ + (quote + name + quote) + " ."@
}

proof fn written_searches_are_found(name: Seq<char>, quote: Seq<char>)
    requires
        identifier(name),
        quote == ""@ || quote == "'"@ || quote == "\""@,
    ensures
        searched(written_search(name, quote)) == Some(name),
{
    reveal_strlit("rg -n -C 8 -- ");
    reveal_strlit(" .");
    reveal_strlit("");
    reveal_strlit("'");
    reveal_strlit("\"");
    let front = "rg -n -C 8 -- "@;
    let back = " ."@;
    let word = quote + name + quote;
    let command = written_search(name, quote);
    assert forall|i: int| 0 <= i < command.len() implies command_char(#[trigger] command[i]) by {
        if i < front.len() {
            assert(command[i] == front[i]);
        } else if i < front.len() + word.len() {
            assert(command[i] == word[i - front.len()]);
            let k = i - front.len() - quote.len();
            if 0 <= k < name.len() {
                assert(command[i] == name[k]);
            }
        } else {
            assert(command[i] == back[i - front.len() - word.len()]);
        }
    }
    let rest = word + back;
    assert(command =~= front + rest);
    assert(command.subrange(0, front.len() as int) =~= front);
    assert(command.subrange(front.len() as int, command.len() as int) =~= rest);
    assert(text::after_prefix(command, front) == Some(rest));
    assert(rest.subrange(rest.len() - back.len(), rest.len() as int) =~= back);
    assert(rest.subrange(0, rest.len() - back.len()) =~= word);
    assert(text::before_suffix(rest, back) == Some(word));
    assert forall|i: int| 0 <= i < word.len() implies #[trigger] word[i] != ' ' by {
        let k = i - quote.len();
        if 0 <= k < name.len() {
            assert(word[i] == name[k]);
        }
    }
    if quote.len() == 0 {
        assert(word =~= name);
        assert(!is_quote(name[0]));
        assert(!is_quote(name.last()));
    } else {
        assert(word.subrange(1, word.len() - 1) =~= name);
    }
}

/// The commands that are recognised are three for each identifier: with no quotes around
/// it, with single quotes, and with double quotes; nothing else is.
pub proof fn three_forms_are_recognised(command: Seq<char>, name: Seq<char>)
    ensures
        searched(command) == Some(name) <==> identifier(name) && (command == written_search(
            name,
            ""@,
        ) || command == written_search(name, "'"@) || command == written_search(name, "\""@)),
{
    if identifier(name) {
        written_searches_are_found(name, ""@);
        written_searches_are_found(name, "'"@);
        written_searches_are_found(name, "\""@);
    }
    if searched(command) == Some(name) {
        reveal_strlit("");
        reveal_strlit("'");
        reveal_strlit("\"");
        let front = "rg -n -C 8 -- "@;
        let back = " ."@;
        let rest = text::after_prefix(command, front)->0;
        let word = text::before_suffix(rest, back)->0;
        assert(command =~= front + rest);
        assert(rest =~= word + back);
        assert(command =~= front + word + back);
        if word.len() >= 2 && is_quote(word[0]) && word[0] == word.last() {
            assert(word =~= seq![word[0]] + name + seq![word[0]]);
            if word[0] == '\'' {
                assert("'"@ =~= seq!['\'']);
                assert(command =~= written_search(name, "'"@));
            } else {
                assert("\""@ =~= seq!['"']);
                assert(command =~= written_search(name, "\""@));
            }
        } else {
            assert(word =~= ""@ + name + ""@);
            assert(command =~= written_search(name, ""@));
        }
    }
}

/// The command that a search is written as is recognised as that search.
pub proof fn commands_are_recognised(name: Seq<char>)
    requires
        identifier(name),
    ensures
        searched("rg -n -C 8 -- "@ + name + " ."@) == Some(name),
{
    written_searches_are_found(name, ""@);
    reveal_strlit("");
    assert(""@ + name + ""@ =~= name);
}

} // verus!
