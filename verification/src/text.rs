//! Text as sequences of characters.
//!
//! A piece of text is handled as a slice of characters, so that every contract
//! speaks of a `Seq<char>`. The scanning specifications carry the position that
//! has been reached; each of them is read from the position given last.

pub mod laws;

use vstd::prelude::*;
use vstd::slice::slice_subrange;

verus! {

broadcast use vstd::string::group_string_axioms;

/// `String::push` appends one character.
pub assume_specification[ String::push ](target: &mut String, c: char)
    ensures
        final(target)@ == old(target)@.push(c),
;

/// The text of bytes as `String::from_utf8_lossy` reads them.
pub uninterp spec fn utf8_lossy(raw: Seq<u8>) -> Seq<char>;

/// `String::from_utf8_lossy`: the text of the bytes, in which what is not UTF-8
/// is replaced. It is a function of the bytes, named `utf8_lossy`, and keeps
/// bytes that are UTF-8 as they are.
#[verifier::external_body]
pub(crate) fn lossy(raw: &[u8]) -> (r: String)
    ensures
        r@ == utf8_lossy(raw@),
        vstd::utf8::valid_utf8(raw@) ==> r@ == vstd::utf8::decode_utf8(raw@),
{
    String::from_utf8_lossy(raw).into_owned()
}

/// Why bytes are not UTF-8, in words.
pub uninterp spec fn utf8_error(raw: Seq<u8>) -> Seq<char>;

/// `String::from_utf8`: the text whose UTF-8 form the bytes are, or why they are
/// not UTF-8. The words of the error are a function of the bytes, named
/// `utf8_error`.
#[verifier::external_body]
pub(crate) fn decode(raw: &[u8]) -> (r: Result<String, String>)
    ensures
        match r {
            Ok(text) => vstd::utf8::valid_utf8(raw@) && text@ == vstd::utf8::decode_utf8(raw@),
            Err(message) => !vstd::utf8::valid_utf8(raw@) && message@ == utf8_error(raw@),
        },
{
    String::from_utf8(raw.to_vec()).map_err(|error| error.to_string())
}

/// A string as `{:?}` shows it: in quotes, with its escapes.
pub uninterp spec fn debug_quoted(text: Seq<char>) -> Seq<char>;

/// The `Debug` form of a string, which is a function of the string alone, named
/// `debug_quoted`.
#[verifier::external_body]
pub(crate) fn debug_quote(text: &str) -> (r: String)
    ensures
        r@ == debug_quoted(text@),
{
    format!("{text:?}")
}

/// The characters of every slice in a list of slices.
pub open spec fn views(pieces: Seq<&[char]>) -> Seq<Seq<char>> {
    Seq::new(pieces.len(), |i: int| pieces[i]@)
}

/// The characters of every string in a list of strings.
pub open spec fn texts(strings: Seq<String>) -> Seq<Seq<char>> {
    Seq::new(strings.len(), |i: int| strings[i]@)
}

/// The number of bytes that a text takes in UTF-8.
pub open spec fn byte_len(s: Seq<char>) -> nat {
    vstd::utf8::encode_utf8(s).len()
}

/// The largest position up to `i` at which no character is cut.
pub open spec fn whole_chars(raw: Seq<u8>, i: int) -> int
    decreases i,
{
    if i <= 0 {
        0
    } else if vstd::utf8::is_char_boundary(raw, i) {
        i
    } else {
        whole_chars(raw, i - 1)
    }
}

/// The longest start of a text that takes no more than `max` bytes.
pub open spec fn bounded(s: Seq<char>, max: nat) -> Seq<char> {
    let raw = vstd::utf8::encode_utf8(s);
    if raw.len() <= max {
        s
    } else {
        vstd::utf8::decode_utf8(raw.subrange(0, whole_chars(raw, max as int)))
    }
}

/// The Unicode `White_Space` property.
pub open spec fn white_space(c: char) -> bool {
    ||| '\u{9}' <= c <= '\u{d}'
    ||| c == ' '
    ||| c == '\u{85}'
    ||| c == '\u{a0}'
    ||| c == '\u{1680}'
    ||| '\u{2000}' <= c <= '\u{200a}'
    ||| c == '\u{2028}'
    ||| c == '\u{2029}'
    ||| c == '\u{202f}'
    ||| c == '\u{205f}'
    ||| c == '\u{3000}'
}

/// ASCII white space: tab, line feed, form feed, carriage return and space.
pub open spec fn ascii_space(c: char) -> bool {
    c == '\t' || c == '\n' || c == '\u{c}' || c == '\r' || c == ' '
}

pub open spec fn ascii_digit(c: char) -> bool {
    '0' <= c <= '9'
}

pub open spec fn ascii_letter(c: char) -> bool {
    'a' <= c <= 'z' || 'A' <= c <= 'Z'
}

pub open spec fn ascii_alphanumeric(c: char) -> bool {
    ascii_letter(c) || ascii_digit(c)
}

/// The lower-case form of an ASCII letter; any other character is itself.
pub open spec fn lower_char(c: char) -> char {
    if 'A' <= c <= 'Z' {
        ((c as u32 + 32) as u32) as char
    } else {
        c
    }
}

pub open spec fn lowered(s: Seq<char>) -> Seq<char> {
    Seq::new(s.len(), |i: int| lower_char(s[i]))
}

/// `p` stands in `s` at position `i`.
pub open spec fn occurs_at(s: Seq<char>, p: Seq<char>, i: int) -> bool {
    0 <= i && i + p.len() <= s.len() && s.subrange(i, i + p.len()) == p
}

pub open spec fn begins(s: Seq<char>, p: Seq<char>) -> bool {
    occurs_at(s, p, 0)
}

pub open spec fn finishes(s: Seq<char>, p: Seq<char>) -> bool {
    p.len() <= s.len() && s.subrange(s.len() - p.len(), s.len() as int) == p
}

/// What follows a prefix, where the text has it.
pub open spec fn after_prefix(s: Seq<char>, p: Seq<char>) -> Option<Seq<char>> {
    if begins(s, p) {
        Some(s.subrange(p.len() as int, s.len() as int))
    } else {
        None
    }
}

/// What precedes a suffix, where the text has it.
pub open spec fn before_suffix(s: Seq<char>, p: Seq<char>) -> Option<Seq<char>> {
    if finishes(s, p) {
        Some(s.subrange(0, s.len() - p.len()))
    } else {
        None
    }
}

/// The first position from `i` on at which `p` stands in `s`.
pub open spec fn found_from(s: Seq<char>, p: Seq<char>, i: int) -> Option<int>
    decreases s.len() + 1 - i,
{
    if i < 0 || i + p.len() > s.len() {
        None
    } else if occurs_at(s, p, i) {
        Some(i)
    } else {
        found_from(s, p, i + 1)
    }
}

/// The first position at which `p` stands in `s`.
pub open spec fn found(s: Seq<char>, p: Seq<char>) -> Option<int> {
    found_from(s, p, 0)
}

pub open spec fn has(s: Seq<char>, p: Seq<char>) -> bool {
    found(s, p) is Some
}

/// The last position up to `i` at which `p` stands in `s`.
pub open spec fn last_found_to(s: Seq<char>, p: Seq<char>, i: int) -> Option<int>
    decreases i + 1,
{
    if i < 0 {
        None
    } else if occurs_at(s, p, i) {
        Some(i)
    } else {
        last_found_to(s, p, i - 1)
    }
}

/// The last position at which `p` stands in `s`.
pub open spec fn last_found(s: Seq<char>, p: Seq<char>) -> Option<int> {
    last_found_to(s, p, s.len() - p.len())
}

/// The two sides of the first `p`.
pub open spec fn cut(s: Seq<char>, p: Seq<char>) -> Option<(Seq<char>, Seq<char>)> {
    match found(s, p) {
        Some(i) => Some((s.subrange(0, i), s.subrange(i + p.len(), s.len() as int))),
        None => None,
    }
}

/// The two sides of the last `p`.
pub open spec fn cut_last(s: Seq<char>, p: Seq<char>) -> Option<(Seq<char>, Seq<char>)> {
    match last_found(s, p) {
        Some(i) => Some((s.subrange(0, i), s.subrange(i + p.len(), s.len() as int))),
        None => None,
    }
}

/// The first position from `i` on that holds no white space.
pub open spec fn skip_space(s: Seq<char>, i: int) -> int
    decreases s.len() - i,
{
    if 0 <= i < s.len() && white_space(s[i]) {
        skip_space(s, i + 1)
    } else {
        i
    }
}

/// The end of the text up to `j` without the white space before `j`.
pub open spec fn drop_space(s: Seq<char>, j: int) -> int
    decreases j,
{
    if 0 < j <= s.len() && white_space(s[j - 1]) {
        drop_space(s, j - 1)
    } else {
        j
    }
}

pub open spec fn trimmed_start(s: Seq<char>) -> Seq<char> {
    s.subrange(skip_space(s, 0), s.len() as int)
}

pub open spec fn trimmed_end(s: Seq<char>) -> Seq<char> {
    s.subrange(0, drop_space(s, s.len() as int))
}

/// The text without the white space at both ends.
pub open spec fn trimmed(s: Seq<char>) -> Seq<char> {
    trimmed_end(trimmed_start(s))
}

/// The end of the text up to `j` without the characters `c` before `j`.
pub open spec fn drop_char(s: Seq<char>, c: char, j: int) -> int
    decreases j,
{
    if 0 < j <= s.len() && s[j - 1] == c {
        drop_char(s, c, j - 1)
    } else {
        j
    }
}

/// The first position from `i` on that does not hold `c`.
pub open spec fn skip_char(s: Seq<char>, c: char, i: int) -> int
    decreases s.len() - i,
{
    if 0 <= i < s.len() && s[i] == c {
        skip_char(s, c, i + 1)
    } else {
        i
    }
}

/// The text without the characters `c` at its end.
pub open spec fn trimmed_end_of(s: Seq<char>, c: char) -> Seq<char> {
    s.subrange(0, drop_char(s, c, s.len() as int))
}

/// The text without the characters `c` at both ends.
pub open spec fn trimmed_of(s: Seq<char>, c: char) -> Seq<char> {
    let t = trimmed_end_of(s, c);
    t.subrange(skip_char(t, c, 0), t.len() as int)
}

/// A line without the carriage return that stood before its line feed.
pub open spec fn without_return(s: Seq<char>) -> Seq<char> {
    if s.len() > 0 && s[s.len() - 1] == '\r' {
        s.subrange(0, s.len() - 1)
    } else {
        s
    }
}

/// The lines that begin at `start`, with no line feed between `start` and `i`.
pub open spec fn lines_from(s: Seq<char>, start: int, i: int) -> Seq<Seq<char>>
    decreases s.len() - i,
{
    if i < 0 || i >= s.len() {
        if start < s.len() {
            seq![s.subrange(start, s.len() as int)]
        } else {
            seq![]
        }
    } else if s[i] == '\n' {
        seq![without_return(s.subrange(start, i))] + lines_from(s, i + 1, i + 1)
    } else {
        lines_from(s, start, i + 1)
    }
}

/// The lines of a text; a line ends at a line feed, and a carriage return
/// before that line feed is not part of the line.
pub open spec fn lines_of(s: Seq<char>) -> Seq<Seq<char>> {
    lines_from(s, 0, 0)
}

/// The pieces that begin at `start`, with no `c` between `start` and `i`.
pub open spec fn pieces_from(s: Seq<char>, c: char, start: int, i: int) -> Seq<Seq<char>>
    decreases s.len() - i,
{
    if i < 0 || i >= s.len() {
        seq![s.subrange(start, s.len() as int)]
    } else if s[i] == c {
        seq![s.subrange(start, i)] + pieces_from(s, c, i + 1, i + 1)
    } else {
        pieces_from(s, c, start, i + 1)
    }
}

/// The pieces of a text between the characters `c`.
pub open spec fn pieces(s: Seq<char>, c: char) -> Seq<Seq<char>> {
    pieces_from(s, c, 0, 0)
}

proof fn pieces_from_are_some(s: Seq<char>, c: char, start: int, i: int)
    ensures
        pieces_from(s, c, start, i).len() > 0,
    decreases s.len() - i,
{
    if 0 <= i < s.len() && s[i] != c {
        pieces_from_are_some(s, c, start, i + 1);
    }
}

/// Every text has a piece; the empty text is one.
pub proof fn pieces_are_some(s: Seq<char>, c: char)
    ensures
        pieces(s, c).len() > 0,
{
    pieces_from_are_some(s, c, 0, 0);
}

/// At most `n` pieces of a text between the characters `c`; the last of them
/// holds what is left.
pub open spec fn pieces_upto(s: Seq<char>, c: char, n: int) -> Seq<Seq<char>>
    decreases n,
{
    if n <= 1 {
        seq![s]
    } else {
        match cut(s, seq![c]) {
            Some((piece, rest)) => seq![piece] + pieces_upto(rest, c, n - 1),
            None => seq![s],
        }
    }
}

/// The words that begin at `start`, with no white space between `start` and `i`.
pub open spec fn words_from(s: Seq<char>, start: int, i: int) -> Seq<Seq<char>>
    decreases s.len() - i,
{
    if i < 0 || i >= s.len() {
        if start < s.len() {
            seq![s.subrange(start, s.len() as int)]
        } else {
            seq![]
        }
    } else if white_space(s[i]) {
        if start < i {
            seq![s.subrange(start, i)] + words_from(s, i + 1, i + 1)
        } else {
            words_from(s, i + 1, i + 1)
        }
    } else {
        words_from(s, start, i + 1)
    }
}

/// The words of a text: its maximal runs without white space.
pub open spec fn words_of(s: Seq<char>) -> Seq<Seq<char>> {
    words_from(s, 0, 0)
}

/// The runs that begin at `start`, with only ASCII letters and digits between
/// `start` and `i`.
pub open spec fn runs_from(s: Seq<char>, start: int, i: int) -> Seq<Seq<char>>
    decreases s.len() - i,
{
    if i < 0 || i >= s.len() {
        if start < s.len() {
            seq![s.subrange(start, s.len() as int)]
        } else {
            seq![]
        }
    } else if !ascii_alphanumeric(s[i]) {
        if start < i {
            seq![s.subrange(start, i)] + runs_from(s, i + 1, i + 1)
        } else {
            runs_from(s, i + 1, i + 1)
        }
    } else {
        runs_from(s, start, i + 1)
    }
}

/// The maximal runs of ASCII letters and digits of a text.
pub open spec fn runs_of(s: Seq<char>) -> Seq<Seq<char>> {
    runs_from(s, 0, 0)
}

/// The first word of a text, or nothing.
pub open spec fn first_word(s: Seq<char>) -> Seq<char> {
    let words = words_of(s);
    if words.len() > 0 {
        words[0]
    } else {
        seq![]
    }
}

/// The end of the run without ASCII white space that holds position `i`.
pub open spec fn ascii_word_end(s: Seq<char>, i: int) -> int
    decreases s.len() - i,
{
    if 0 <= i < s.len() && !ascii_space(s[i]) {
        ascii_word_end(s, i + 1)
    } else {
        i
    }
}

/// The first position from `i` on that holds no ASCII white space.
pub open spec fn skip_ascii_space(s: Seq<char>, i: int) -> int
    decreases s.len() - i,
{
    if 0 <= i < s.len() && ascii_space(s[i]) {
        skip_ascii_space(s, i + 1)
    } else {
        i
    }
}

/// The first run without ASCII white space, or nothing.
pub open spec fn first_ascii_word(s: Seq<char>) -> Seq<char> {
    let start = skip_ascii_space(s, 0);
    s.subrange(start, ascii_word_end(s, start))
}

/// The text with every `from` written as `to`, read from position `i`.
pub open spec fn replaced_from(s: Seq<char>, from: char, to: Seq<char>, i: int) -> Seq<char>
    decreases s.len() - i,
{
    if i < 0 || i >= s.len() {
        seq![]
    } else if s[i] == from {
        to + replaced_from(s, from, to, i + 1)
    } else {
        seq![s[i]] + replaced_from(s, from, to, i + 1)
    }
}

/// The text with every character `from` written as `to`.
pub open spec fn replaced(s: Seq<char>, from: char, to: Seq<char>) -> Seq<char> {
    replaced_from(s, from, to, 0)
}

/// The path with `/` for every backslash.
pub open spec fn slashed(s: Seq<char>) -> Seq<char> {
    Seq::new(s.len(), |i: int| if s[i] == '\\' { '/' } else { s[i] })
}

/// The last of the pieces between `/`.
pub open spec fn base_name(s: Seq<char>) -> Seq<char> {
    match last_found(s, seq!['/']) {
        Some(i) => s.subrange(i + 1, s.len() as int),
        None => s,
    }
}

/// The number that the digits of `s` from `i` on add to `value`; `None` where
/// a character is no digit or the number does not fit in 64 bits.
pub open spec fn number_from(s: Seq<char>, i: int, value: int) -> Option<u64>
    decreases s.len() - i,
{
    if i < 0 || i >= s.len() {
        Some(value as u64)
    } else if !ascii_digit(s[i]) {
        None
    } else {
        let next = value * 10 + (s[i] as int - '0' as int);
        if next > u64::MAX {
            None
        } else {
            number_from(s, i + 1, next)
        }
    }
}

/// The unsigned number that a text writes in decimal, with an optional `+`.
pub open spec fn number_of(s: Seq<char>) -> Option<u64> {
    if s.len() == 0 {
        None
    } else if s[0] == '+' {
        if s.len() == 1 {
            None
        } else {
            number_from(s, 1, 0)
        }
    } else {
        number_from(s, 0, 0)
    }
}

pub open spec fn digit_char(d: int) -> char {
    (('0' as u32 + d) as u32) as char
}

/// A number in decimal.
pub open spec fn decimal(n: nat) -> Seq<char>
    decreases n,
{
    if n < 10 {
        seq![digit_char(n as int)]
    } else {
        decimal(n / 10).push(digit_char((n % 10) as int))
    }
}

/// `a` comes strictly before `b` in the order of their characters, read from `i`.
pub open spec fn before_from(a: Seq<char>, b: Seq<char>, i: int) -> bool
    decreases a.len() - i,
{
    if i < 0 || i >= b.len() {
        false
    } else if i >= a.len() {
        true
    } else if a[i] != b[i] {
        a[i] < b[i]
    } else {
        before_from(a, b, i + 1)
    }
}

/// `a` comes strictly before `b` in the order of strings.
pub open spec fn before(a: Seq<char>, b: Seq<char>) -> bool {
    before_from(a, b, 0)
}

/// The texts from `i` on, with `separator` between each two.
pub open spec fn joined_from(parts: Seq<Seq<char>>, separator: Seq<char>, i: int) -> Seq<char>
    decreases parts.len() - i,
{
    if i < 0 || i >= parts.len() {
        seq![]
    } else if i == 0 {
        parts[0] + joined_from(parts, separator, 1)
    } else {
        separator + parts[i] + joined_from(parts, separator, i + 1)
    }
}

/// The texts with `separator` between each two.
pub open spec fn joined(parts: Seq<Seq<char>>, separator: Seq<char>) -> Seq<char> {
    joined_from(parts, separator, 0)
}

/// The characters of a string.
pub fn to_chars(text: &str) -> (r: Vec<char>)
    ensures
        r@ == text@,
{
    let mut chars: Vec<char> = Vec::new();
    for c in iter: text.chars()
        invariant
            iter.seq() == text@,
            chars@ == text@.take(iter.index() as int),
    {
        proof {
            assert(text@.take(iter.index() + 1) =~= text@.take(iter.index() as int).push(c));
        }
        chars.push(c);
    }
    assert(text@.take(text@.len() as int) =~= text@);
    chars
}

/// A string made of the given characters.
pub fn to_text(chars: &[char]) -> (r: String)
    ensures
        r@ == chars@,
{
    let mut text = String::new();
    let mut i: usize = 0;
    while i < chars.len()
        invariant
            i <= chars@.len(),
            text@ == chars@.take(i as int),
        decreases chars@.len() - i,
    {
        text.push(chars[i]);
        i += 1;
        assert(chars@.take(i as int) =~= chars@.take(i - 1).push(chars@[i - 1]));
    }
    assert(chars@.take(i as int) =~= chars@);
    text
}

/// A string of its own with the same characters.
pub fn copy(text: &str) -> (r: String)
    ensures
        r@ == text@,
{
    text.to_owned()
}

/// One string behind another.
pub fn concat(a: &str, b: &str) -> (r: String)
    ensures
        r@ == a@ + b@,
{
    let mut out = to_chars(a);
    append(&mut out, to_chars(b).as_slice());
    to_text(out.as_slice())
}

/// A copy of an optional string.
pub fn copy_option(text: &Option<String>) -> (r: Option<String>)
    ensures
        r.deep_view() == text.deep_view(),
{
    match text {
        Some(text) => Some(copy(text.as_str())),
        None => None,
    }
}

/// A copy of a list of strings.
pub fn copy_list(list: &Vec<String>) -> (r: Vec<String>)
    ensures
        r.deep_view() == list.deep_view(),
{
    let mut out: Vec<String> = Vec::new();
    let mut i: usize = 0;
    while i < list.len()
        invariant
            i <= list@.len(),
            out@.len() == i,
            forall|k: int| 0 <= k < i ==> out@[k]@ == list@[k]@,
        decreases list@.len() - i,
    {
        out.push(copy(list[i].as_str()));
        i += 1;
    }
    assert(out.deep_view() =~= list.deep_view());
    out
}

pub fn is_space(c: char) -> (r: bool)
    ensures
        r == white_space(c),
{
    ('\u{9}' <= c && c <= '\u{d}') || c == ' ' || c == '\u{85}' || c == '\u{a0}' || c == '\u{1680}'
        || ('\u{2000}' <= c && c <= '\u{200a}') || c == '\u{2028}' || c == '\u{2029}' || c
        == '\u{202f}' || c == '\u{205f}' || c == '\u{3000}'
}

pub fn is_ascii_space(c: char) -> (r: bool)
    ensures
        r == ascii_space(c),
{
    c == '\t' || c == '\n' || c == '\u{c}' || c == '\r' || c == ' '
}

pub fn is_digit(c: char) -> (r: bool)
    ensures
        r == ascii_digit(c),
{
    '0' <= c && c <= '9'
}

pub fn is_letter(c: char) -> (r: bool)
    ensures
        r == ascii_letter(c),
{
    ('a' <= c && c <= 'z') || ('A' <= c && c <= 'Z')
}

pub fn is_alphanumeric(c: char) -> (r: bool)
    ensures
        r == ascii_alphanumeric(c),
{
    is_letter(c) || is_digit(c)
}

/// The lower-case form of an ASCII letter.
pub fn lower_of(c: char) -> (r: char)
    ensures
        r == lower_char(c),
{
    if 'A' <= c && c <= 'Z' {
        let code: u8 = c as u8;
        (code + 32) as char
    } else {
        c
    }
}

/// The text in ASCII lower case.
pub fn to_lower(s: &[char]) -> (r: Vec<char>)
    ensures
        r@ == lowered(s@),
{
    let mut out: Vec<char> = Vec::new();
    let mut i: usize = 0;
    while i < s.len()
        invariant
            i <= s@.len(),
            out@.len() == i,
            forall|k: int| 0 <= k < i ==> out@[k] == lower_char(s@[k]),
        decreases s@.len() - i,
    {
        out.push(lower_of(s[i]));
        i += 1;
    }
    assert(out@ =~= lowered(s@));
    out
}

/// Two texts hold the same characters.
pub fn same(a: &[char], b: &[char]) -> (r: bool)
    ensures
        r == (a@ == b@),
{
    if a.len() != b.len() {
        return false;
    }
    let mut i: usize = 0;
    while i < a.len()
        invariant
            i <= a@.len(),
            a@.len() == b@.len(),
            forall|k: int| 0 <= k < i ==> a@[k] == b@[k],
        decreases a@.len() - i,
    {
        if a[i] != b[i] {
            return false;
        }
        i += 1;
    }
    assert(a@ =~= b@);
    true
}

/// A text holds exactly the characters of a string.
pub fn is(s: &[char], text: &str) -> (r: bool)
    ensures
        r == (s@ == text@),
{
    same(s, to_chars(text).as_slice())
}

/// Two strings hold the same characters.
pub fn same_text(a: &str, b: &str) -> (r: bool)
    ensures
        r == (a@ == b@),
{
    same(to_chars(a).as_slice(), to_chars(b).as_slice())
}

/// `p` stands in `s` at position `i`.
pub fn stands_at(s: &[char], p: &[char], i: usize) -> (r: bool)
    requires
        i <= s@.len(),
    ensures
        r == occurs_at(s@, p@, i as int),
{
    if p.len() > s.len() - i {
        return false;
    }
    same(slice_subrange(s, i, i + p.len()), p)
}

pub fn starts_with(s: &[char], p: &str) -> (r: bool)
    ensures
        r == begins(s@, p@),
{
    stands_at(s, to_chars(p).as_slice(), 0)
}

pub fn ends_with(s: &[char], p: &str) -> (r: bool)
    ensures
        r == finishes(s@, p@),
{
    let p = to_chars(p);
    if p.len() > s.len() {
        return false;
    }
    same(slice_subrange(s, s.len() - p.len(), s.len()), p.as_slice())
}

pub fn strip_prefix<'a>(s: &'a [char], p: &str) -> (r: Option<&'a [char]>)
    ensures
        match r {
            Some(rest) => after_prefix(s@, p@) == Some(rest@),
            None => after_prefix(s@, p@) is None,
        },
{
    let p = to_chars(p);
    if stands_at(s, p.as_slice(), 0) {
        Some(slice_subrange(s, p.len(), s.len()))
    } else {
        None
    }
}

pub fn strip_suffix<'a>(s: &'a [char], p: &str) -> (r: Option<&'a [char]>)
    ensures
        match r {
            Some(rest) => before_suffix(s@, p@) == Some(rest@),
            None => before_suffix(s@, p@) is None,
        },
{
    if ends_with(s, p) {
        let p = to_chars(p);
        Some(slice_subrange(s, 0, s.len() - p.len()))
    } else {
        None
    }
}

/// A text holds a character.
pub fn holds(s: &[char], c: char) -> (r: bool)
    ensures
        r == s@.contains(c),
{
    let mut i: usize = 0;
    while i < s.len()
        invariant
            i <= s@.len(),
            forall|k: int| 0 <= k < i ==> s@[k] != c,
        decreases s@.len() - i,
    {
        if s[i] == c {
            assert(s@[i as int] == c);
            return true;
        }
        i += 1;
    }
    false
}

/// The number of bytes that a string takes in UTF-8.
pub fn count_bytes(text: &str) -> (r: usize)
    ensures
        r == byte_len(text@),
{
    text.as_bytes().len()
}

/// The longest start of a string that takes no more than `max` bytes.
pub fn bound(value: &str, max: usize) -> (r: String)
    ensures
        r@ == bounded(value@, max as nat),
        byte_len(r@) <= max,
{
    broadcast use vstd::utf8::group_utf8_lib;

    let ghost raw = vstd::utf8::encode_utf8(value@);
    if count_bytes(value) <= max {
        return copy(value);
    }
    let mut end: usize = max;
    while end > 0 && !value.is_char_boundary(end)
        invariant
            raw == vstd::utf8::encode_utf8(value@),
            end <= max < raw.len(),
            whole_chars(raw, max as int) == whole_chars(raw, end as int),
        decreases end,
    {
        end -= 1;
    }
    let (start, _) = value.split_at(end);
    let r = copy(start);
    assert(r@ == vstd::utf8::decode_utf8(vstd::utf8::encode_utf8(start@)));
    r
}

/// A text of ASCII characters takes as many bytes as characters, so that a bound
/// that it keeps leaves it as it is.
pub proof fn short_ascii_is_kept(s: Seq<char>, max: nat)
    requires
        vstd::utf8::is_ascii_chars(s),
        s.len() <= max,
    ensures
        byte_len(s) == s.len(),
        bounded(s, max) == s,
{
    vstd::utf8::is_ascii_chars_encode_utf8(s);
}

/// The first position at which `p` stands in `s`.
pub fn find(s: &[char], p: &[char]) -> (r: Option<usize>)
    ensures
        match r {
            Some(i) => found(s@, p@) == Some(i as int) && i + p@.len() <= s@.len(),
            None => found(s@, p@) is None,
        },
{
    let mut i: usize = 0;
    while i <= s.len() && p.len() <= s.len() - i
        invariant
            i <= s@.len() + 1,
            found(s@, p@) == found_from(s@, p@, i as int),
        decreases s@.len() + 1 - i,
    {
        if stands_at(s, p, i) {
            return Some(i);
        }
        if i == s.len() {
            assert(found_from(s@, p@, i + 1) is None);
            return None;
        }
        i += 1;
    }
    None
}

pub fn contains(s: &[char], p: &str) -> (r: bool)
    ensures
        r == has(s@, p@),
{
    find(s, to_chars(p).as_slice()).is_some()
}

/// The last position at which `p` stands in `s`.
pub fn find_last(s: &[char], p: &[char]) -> (r: Option<usize>)
    ensures
        match r {
            Some(i) => last_found(s@, p@) == Some(i as int) && i + p@.len() <= s@.len(),
            None => last_found(s@, p@) is None,
        },
{
    if p.len() > s.len() {
        return None;
    }
    let mut i: usize = s.len() - p.len();
    loop
        invariant
            i + p@.len() <= s@.len(),
            last_found(s@, p@) == last_found_to(s@, p@, i as int),
        decreases i,
    {
        if stands_at(s, p, i) {
            return Some(i);
        }
        if i == 0 {
            assert(last_found_to(s@, p@, -1) is None);
            return None;
        }
        i -= 1;
    }
}

/// The two sides of the first `p`.
pub fn split_once<'a>(s: &'a [char], p: &str) -> (r: Option<(&'a [char], &'a [char])>)
    ensures
        match r {
            Some(sides) => cut(s@, p@) == Some((sides.0@, sides.1@)),
            None => cut(s@, p@) is None,
        },
{
    let p = to_chars(p);
    let end: usize = s.len();
    match find(s, p.as_slice()) {
        Some(i) => Some((slice_subrange(s, 0, i), slice_subrange(s, i + p.len(), end))),
        None => None,
    }
}

/// The two sides of the last `p`.
pub fn split_once_last<'a>(s: &'a [char], p: &str) -> (r: Option<(&'a [char], &'a [char])>)
    ensures
        match r {
            Some(sides) => cut_last(s@, p@) == Some((sides.0@, sides.1@)),
            None => cut_last(s@, p@) is None,
        },
{
    let p = to_chars(p);
    let end: usize = s.len();
    match find_last(s, p.as_slice()) {
        Some(i) => Some((slice_subrange(s, 0, i), slice_subrange(s, i + p.len(), end))),
        None => None,
    }
}

/// The text without the white space at its start.
pub fn trim_start(s: &[char]) -> (r: &[char])
    ensures
        r@ == trimmed_start(s@),
{
    let mut i: usize = 0;
    while i < s.len() && is_space(s[i])
        invariant
            i <= s@.len(),
            skip_space(s@, 0) == skip_space(s@, i as int),
        decreases s@.len() - i,
    {
        i += 1;
    }
    slice_subrange(s, i, s.len())
}

/// The text without the white space at its end.
pub fn trim_end(s: &[char]) -> (r: &[char])
    ensures
        r@ == trimmed_end(s@),
{
    let mut j: usize = s.len();
    while j > 0 && is_space(s[j - 1])
        invariant
            j <= s@.len(),
            drop_space(s@, s@.len() as int) == drop_space(s@, j as int),
        decreases j,
    {
        j -= 1;
    }
    slice_subrange(s, 0, j)
}

/// The text without the white space at both ends.
pub fn trim(s: &[char]) -> (r: &[char])
    ensures
        r@ == trimmed(s@),
{
    trim_end(trim_start(s))
}

/// The text without the characters `c` at its end.
pub fn trim_end_of(s: &[char], c: char) -> (r: &[char])
    ensures
        r@ == trimmed_end_of(s@, c),
{
    let mut j: usize = s.len();
    while j > 0 && s[j - 1] == c
        invariant
            j <= s@.len(),
            drop_char(s@, c, s@.len() as int) == drop_char(s@, c, j as int),
        decreases j,
    {
        j -= 1;
    }
    slice_subrange(s, 0, j)
}

/// The text without the characters `c` at both ends.
pub fn trim_of(s: &[char], c: char) -> (r: &[char])
    ensures
        r@ == trimmed_of(s@, c),
{
    let t = trim_end_of(s, c);
    let mut i: usize = 0;
    while i < t.len() && t[i] == c
        invariant
            i <= t@.len(),
            skip_char(t@, c, 0) == skip_char(t@, c, i as int),
        decreases t@.len() - i,
    {
        i += 1;
    }
    slice_subrange(t, i, t.len())
}

/// The lines of a text.
pub fn lines(s: &[char]) -> (r: Vec<&[char]>)
    ensures
        views(r@) == lines_of(s@),
{
    let mut out: Vec<&[char]> = Vec::new();
    let mut start: usize = 0;
    let mut i: usize = 0;
    while i < s.len()
        invariant
            start <= i <= s@.len(),
            lines_of(s@) =~= views(out@) + lines_from(s@, start as int, i as int),
        decreases s@.len() - i,
    {
        if s[i] == '\n' {
            let ghost before_push = out@;
            let mut end: usize = i;
            if end > start && s[end - 1] == '\r' {
                end -= 1;
            }
            let line = slice_subrange(s, start, end);
            assert(line@ =~= without_return(s@.subrange(start as int, i as int)));
            out.push(line);
            assert(views(out@) =~= views(before_push).push(line@));
            start = i + 1;
        }
        i += 1;
    }
    if start < s.len() {
        let ghost before_push = out@;
        let line = slice_subrange(s, start, s.len());
        out.push(line);
        assert(views(out@) =~= views(before_push).push(line@));
    }
    assert(views(out@) =~= lines_of(s@));
    out
}

/// The pieces of a text between the characters `c`.
pub fn split(s: &[char], c: char) -> (r: Vec<&[char]>)
    ensures
        views(r@) == pieces(s@, c),
        r@.len() > 0,
{
    let mut out: Vec<&[char]> = Vec::new();
    let mut start: usize = 0;
    let mut i: usize = 0;
    while i < s.len()
        invariant
            start <= i <= s@.len(),
            pieces(s@, c) =~= views(out@) + pieces_from(s@, c, start as int, i as int),
        decreases s@.len() - i,
    {
        if s[i] == c {
            let ghost before_push = out@;
            let piece = slice_subrange(s, start, i);
            out.push(piece);
            assert(views(out@) =~= views(before_push).push(piece@));
            start = i + 1;
        }
        i += 1;
    }
    let ghost before_push = out@;
    let piece = slice_subrange(s, start, s.len());
    out.push(piece);
    assert(views(out@) =~= views(before_push).push(piece@));
    assert(views(out@) =~= pieces(s@, c));
    out
}

/// At most `n` pieces of a text between the characters `c`.
pub fn split_upto(s: &[char], c: char, n: usize) -> (r: Vec<&[char]>)
    requires
        n > 0,
    ensures
        views(r@) == pieces_upto(s@, c, n as int),
{
    let mut mark: Vec<char> = Vec::new();
    mark.push(c);
    assert(mark@ =~= seq![c]);
    let mut out: Vec<&[char]> = Vec::new();
    let mut rest: &[char] = s;
    let mut left: usize = n;
    loop
        invariant
            mark@ == seq![c],
            left >= 1,
            pieces_upto(s@, c, n as int) =~= views(out@) + pieces_upto(rest@, c, left as int),
        decreases left,
    {
        let end: usize = rest.len();
        let ghost before_push = out@;
        let found = if left > 1 {
            find(rest, mark.as_slice())
        } else {
            None
        };
        match found {
            Some(i) => {
                let piece = slice_subrange(rest, 0, i);
                out.push(piece);
                assert(views(out@) =~= views(before_push).push(piece@));
                rest = slice_subrange(rest, i + 1, end);
                left -= 1;
            },
            None => {
                out.push(rest);
                assert(views(out@) =~= views(before_push).push(rest@));
                assert(views(out@) =~= pieces_upto(s@, c, n as int));
                return out;
            },
        }
    }
}

/// The words of a text.
pub fn words(s: &[char]) -> (r: Vec<&[char]>)
    ensures
        views(r@) == words_of(s@),
{
    let mut out: Vec<&[char]> = Vec::new();
    let mut start: usize = 0;
    let mut i: usize = 0;
    while i < s.len()
        invariant
            start <= i <= s@.len(),
            words_of(s@) =~= views(out@) + words_from(s@, start as int, i as int),
        decreases s@.len() - i,
    {
        if is_space(s[i]) {
            if start < i {
                let ghost before_push = out@;
                let word = slice_subrange(s, start, i);
                out.push(word);
                assert(views(out@) =~= views(before_push).push(word@));
            }
            start = i + 1;
        }
        i += 1;
    }
    if start < s.len() {
        let ghost before_push = out@;
        let word = slice_subrange(s, start, s.len());
        out.push(word);
        assert(views(out@) =~= views(before_push).push(word@));
    }
    assert(views(out@) =~= words_of(s@));
    out
}

/// The maximal runs of ASCII letters and digits of a text.
pub fn runs(s: &[char]) -> (r: Vec<&[char]>)
    ensures
        views(r@) == runs_of(s@),
{
    let mut out: Vec<&[char]> = Vec::new();
    let mut start: usize = 0;
    let mut i: usize = 0;
    while i < s.len()
        invariant
            start <= i <= s@.len(),
            runs_of(s@) =~= views(out@) + runs_from(s@, start as int, i as int),
        decreases s@.len() - i,
    {
        if !is_alphanumeric(s[i]) {
            if start < i {
                let ghost before_push = out@;
                let run = slice_subrange(s, start, i);
                out.push(run);
                assert(views(out@) =~= views(before_push).push(run@));
            }
            start = i + 1;
        }
        i += 1;
    }
    if start < s.len() {
        let ghost before_push = out@;
        let run = slice_subrange(s, start, s.len());
        out.push(run);
        assert(views(out@) =~= views(before_push).push(run@));
    }
    assert(views(out@) =~= runs_of(s@));
    out
}

/// The first run without ASCII white space, or nothing.
pub fn ascii_word(s: &[char]) -> (r: &[char])
    ensures
        r@ == first_ascii_word(s@),
{
    let mut start: usize = 0;
    while start < s.len() && is_ascii_space(s[start])
        invariant
            start <= s@.len(),
            skip_ascii_space(s@, 0) == skip_ascii_space(s@, start as int),
        decreases s@.len() - start,
    {
        start += 1;
    }
    let mut end: usize = start;
    while end < s.len() && !is_ascii_space(s[end])
        invariant
            start <= end <= s@.len(),
            ascii_word_end(s@, start as int) == ascii_word_end(s@, end as int),
        decreases s@.len() - end,
    {
        end += 1;
    }
    slice_subrange(s, start, end)
}

/// The text with every character `from` written as `to`.
pub fn replace(s: &[char], from: char, to: &str) -> (r: Vec<char>)
    ensures
        r@ == replaced(s@, from, to@),
{
    let to = to_chars(to);
    let mut out: Vec<char> = Vec::new();
    let mut i: usize = 0;
    while i < s.len()
        invariant
            i <= s@.len(),
            replaced(s@, from, to@) =~= out@ + replaced_from(s@, from, to@, i as int),
        decreases s@.len() - i,
    {
        if s[i] == from {
            append(&mut out, to.as_slice());
        } else {
            out.push(s[i]);
        }
        i += 1;
    }
    assert(out@ =~= replaced(s@, from, to@));
    out
}

/// Appends characters to a growing text.
pub fn append(out: &mut Vec<char>, more: &[char])
    ensures
        final(out)@ == old(out)@ + more@,
{
    let mut i: usize = 0;
    while i < more.len()
        invariant
            i <= more@.len(),
            out@ =~= old(out)@ + more@.take(i as int),
        decreases more@.len() - i,
    {
        out.push(more[i]);
        i += 1;
        assert(more@.take(i as int) =~= more@.take(i - 1).push(more@[i - 1]));
    }
    assert(more@.take(i as int) =~= more@);
}

/// The path with `/` for every backslash.
pub fn to_slashes(s: &[char]) -> (r: Vec<char>)
    ensures
        r@ == slashed(s@),
{
    let mut out: Vec<char> = Vec::new();
    let mut i: usize = 0;
    while i < s.len()
        invariant
            i <= s@.len(),
            out@.len() == i,
            forall|k: int| 0 <= k < i ==> out@[k] == slashed(s@)[k],
        decreases s@.len() - i,
    {
        if s[i] == '\\' {
            out.push('/');
        } else {
            out.push(s[i]);
        }
        i += 1;
    }
    assert(out@ =~= slashed(s@));
    out
}

/// The last of the pieces between `/`.
pub fn file_name(s: &[char]) -> (r: &[char])
    ensures
        r@ == base_name(s@),
{
    let mut slash: Vec<char> = Vec::new();
    slash.push('/');
    assert(slash@ =~= seq!['/']);
    let end: usize = s.len();
    match find_last(s, slash.as_slice()) {
        Some(i) => slice_subrange(s, i + 1, end),
        None => s,
    }
}

/// The unsigned number that a text writes in decimal.
pub fn parse_number(s: &[char]) -> (r: Option<u64>)
    ensures
        r == number_of(s@),
{
    if s.len() == 0 {
        return None;
    }
    let mut i: usize = 0;
    if s[0] == '+' {
        if s.len() == 1 {
            return None;
        }
        i = 1;
    }
    let mut value: u64 = 0;
    while i < s.len()
        invariant
            i <= s@.len(),
            number_of(s@) == number_from(s@, i as int, value as int),
        decreases s@.len() - i,
    {
        let c = s[i];
        if !is_digit(c) {
            return None;
        }
        let digit: u64 = (c as u8 - 48) as u64;
        assert(digit == c as int - '0' as int);
        if value > (u64::MAX - digit) / 10 {
            assert(value * 10 + digit > u64::MAX) by (nonlinear_arith)
                requires
                    value > (u64::MAX - digit) / 10,
                    digit <= 9,
            ;
            return None;
        }
        assert(value * 10 + digit <= u64::MAX) by (nonlinear_arith)
            requires
                value <= (u64::MAX - digit) / 10,
                digit <= 9,
        ;
        value = value * 10 + digit;
        i += 1;
    }
    Some(value)
}

/// A number in decimal.
pub fn format_number(n: u64) -> (r: Vec<char>)
    ensures
        r@ == decimal(n as nat),
    decreases n,
{
    if n < 10 {
        let mut out: Vec<char> = Vec::new();
        out.push((48 + n as u8) as char);
        assert(out@ =~= seq![digit_char(n as int)]);
        out
    } else {
        let mut out = format_number(n / 10);
        out.push((48 + (n % 10) as u8) as char);
        out
    }
}

/// A number in decimal.
pub fn format_wide(n: u128) -> (r: Vec<char>)
    ensures
        r@ == decimal(n as nat),
    decreases n,
{
    if n < 10 {
        let mut out: Vec<char> = Vec::new();
        out.push((48 + n as u8) as char);
        assert(out@ =~= seq![digit_char(n as int)]);
        out
    } else {
        let mut out = format_wide(n / 10);
        out.push((48 + (n % 10) as u8) as char);
        out
    }
}

/// `a` comes strictly before `b` in the order of strings.
pub fn comes_before(a: &[char], b: &[char]) -> (r: bool)
    ensures
        r == before(a@, b@),
{
    let mut i: usize = 0;
    while i < a.len() && i < b.len()
        invariant
            i <= a@.len(),
            i <= b@.len(),
            before(a@, b@) == before_from(a@, b@, i as int),
        decreases a@.len() - i,
    {
        if a[i] != b[i] {
            return a[i] < b[i];
        }
        i += 1;
    }
    i < b.len()
}

/// `a` comes strictly before `b` in the order of strings.
pub fn precedes(a: &str, b: &str) -> (r: bool)
    ensures
        r == before(a@, b@),
{
    comes_before(to_chars(a).as_slice(), to_chars(b).as_slice())
}

/// `a` comes strictly before `b` in the order of lists of strings, read from `i`.
pub open spec fn list_before_from(a: Seq<Seq<char>>, b: Seq<Seq<char>>, i: int) -> bool
    decreases a.len() - i,
{
    if i < 0 || i >= b.len() {
        false
    } else if i >= a.len() {
        true
    } else if a[i] != b[i] {
        before(a[i], b[i])
    } else {
        list_before_from(a, b, i + 1)
    }
}

/// `a` comes strictly before `b` in the order of lists of strings.
pub open spec fn list_before(a: Seq<Seq<char>>, b: Seq<Seq<char>>) -> bool {
    list_before_from(a, b, 0)
}

/// `a` comes strictly before `b` in the order of lists of strings.
pub fn list_precedes(a: &Vec<String>, b: &Vec<String>) -> (r: bool)
    ensures
        r == list_before(a.deep_view(), b.deep_view()),
{
    let ghost left = a.deep_view();
    let ghost right = b.deep_view();
    let mut i: usize = 0;
    while i < a.len() && i < b.len()
        invariant
            i <= a@.len(),
            i <= b@.len(),
            left == a.deep_view(),
            right == b.deep_view(),
            list_before(left, right) == list_before_from(left, right, i as int),
        decreases a@.len() - i,
    {
        assert(left[i as int] == a@[i as int]@);
        assert(right[i as int] == b@[i as int]@);
        if !same_text(a[i].as_str(), b[i].as_str()) {
            return precedes(a[i].as_str(), b[i].as_str());
        }
        i += 1;
    }
    i < b.len()
}

/// Two lists hold the same strings.
pub fn same_list(a: &Vec<String>, b: &Vec<String>) -> (r: bool)
    ensures
        r == (a.deep_view() == b.deep_view()),
{
    let ghost left = a.deep_view();
    let ghost right = b.deep_view();
    if a.len() != b.len() {
        assert(left.len() != right.len());
        return false;
    }
    let mut i: usize = 0;
    while i < a.len()
        invariant
            i <= a@.len(),
            a@.len() == b@.len(),
            left == a.deep_view(),
            right == b.deep_view(),
            forall|k: int| 0 <= k < i ==> left[k] == right[k],
        decreases a@.len() - i,
    {
        assert(left[i as int] == a@[i as int]@);
        assert(right[i as int] == b@[i as int]@);
        if !same_text(a[i].as_str(), b[i].as_str()) {
            return false;
        }
        i += 1;
    }
    assert(left =~= right);
    true
}

/// Two optional texts are the same.
pub fn same_option(a: &Option<String>, b: &Option<String>) -> (r: bool)
    ensures
        r == (a.deep_view() == b.deep_view()),
{
    match (a, b) {
        (Some(a), Some(b)) => same_text(a.as_str(), b.as_str()),
        (None, None) => true,
        _ => false,
    }
}

/// The texts with `separator` between each two.
pub fn join(parts: &Vec<&[char]>, separator: &str) -> (r: Vec<char>)
    ensures
        r@ == joined(views(parts@), separator@),
{
    let separator_chars = to_chars(separator);
    let mut out: Vec<char> = Vec::new();
    let mut i: usize = 0;
    while i < parts.len()
        invariant
            i <= parts@.len(),
            separator_chars@ == separator@,
            joined(views(parts@), separator@) =~= out@ + joined_from(
                views(parts@),
                separator@,
                i as int,
            ),
        decreases parts@.len() - i,
    {
        if i > 0 {
            append(&mut out, separator_chars.as_slice());
        }
        append(&mut out, parts[i]);
        i += 1;
    }
    assert(out@ =~= joined(views(parts@), separator@));
    out
}

/// The strings with `separator` between each two.
pub fn join_texts(parts: &Vec<String>, separator: &str) -> (r: String)
    ensures
        r@ == joined(parts.deep_view(), separator@),
{
    let ghost all = parts.deep_view();
    let separator_chars = to_chars(separator);
    let mut out: Vec<char> = Vec::new();
    let mut i: usize = 0;
    while i < parts.len()
        invariant
            i <= parts@.len(),
            all == parts.deep_view(),
            separator_chars@ == separator@,
            joined(all, separator@) =~= out@ + joined_from(all, separator@, i as int),
        decreases parts@.len() - i,
    {
        assert(all[i as int] == parts@[i as int]@);
        if i > 0 {
            append(&mut out, separator_chars.as_slice());
        }
        append(&mut out, to_chars(parts[i].as_str()).as_slice());
        i += 1;
    }
    assert(out@ =~= joined(all, separator@));
    to_text(out.as_slice())
}

proof fn before_from_is_total(a: Seq<char>, b: Seq<char>, i: int)
    requires
        0 <= i <= a.len(),
        i <= b.len(),
        forall|k: int| 0 <= k < i ==> a[k] == b[k],
    ensures
        a == b || before_from(a, b, i) || before_from(b, a, i),
        !(before_from(a, b, i) && before_from(b, a, i)),
        a == b ==> !before_from(a, b, i),
    decreases a.len() - i,
{
    if i < a.len() && i < b.len() && a[i] == b[i] {
        before_from_is_total(a, b, i + 1);
    } else if i == a.len() && i == b.len() {
        assert(a =~= b);
    }
}

/// Of two different texts exactly one comes before the other, and no text comes
/// before itself.
pub proof fn before_is_total(a: Seq<char>, b: Seq<char>)
    ensures
        a == b || before(a, b) || before(b, a),
        !(before(a, b) && before(b, a)),
        !before(a, a),
{
    before_from_is_total(a, b, 0);
    before_from_is_total(a, a, 0);
}

proof fn before_from_is_transitive(a: Seq<char>, b: Seq<char>, c: Seq<char>, i: int)
    requires
        0 <= i,
        before_from(a, b, i),
        before_from(b, c, i),
    ensures
        before_from(a, c, i),
    decreases a.len() - i,
{
    if i < a.len() && i < b.len() && i < c.len() && a[i] == b[i] && b[i] == c[i] {
        before_from_is_transitive(a, b, c, i + 1);
    }
}

/// The order of strings is transitive.
pub proof fn before_is_transitive(a: Seq<char>, b: Seq<char>, c: Seq<char>)
    requires
        before(a, b),
        before(b, c),
    ensures
        before(a, c),
{
    before_from_is_transitive(a, b, c, 0);
}

/// Of any three texts: no two come before each other, two that differ are in order, and
/// the order goes on from the second to the third.
pub proof fn three_are_ordered(a: Seq<char>, b: Seq<char>, c: Seq<char>)
    ensures
        !(before(a, b) && before(b, a)),
        a == b || before(a, b) || before(b, a),
        b == c || before(b, c) || before(c, b),
        a == c || before(a, c) || before(c, a),
        !before(a, a),
        !before(b, b),
        !before(c, c),
        before(a, b) && before(b, c) ==> before(a, c),
        !before(a, b) && !before(b, c) ==> !before(a, c),
{
    before_is_total(a, b);
    before_is_total(b, c);
    before_is_total(a, c);
    before_is_total(c, c);
    if before(a, b) && before(b, c) {
        before_is_transitive(a, b, c);
    }
    if before(c, b) && before(b, a) {
        before_is_transitive(c, b, a);
    }
}

proof fn three_lists_from(a: Seq<Seq<char>>, b: Seq<Seq<char>>, c: Seq<Seq<char>>, i: int)
    requires
        0 <= i <= a.len(),
        i <= b.len(),
        i <= c.len(),
        forall|k: int| 0 <= k < i ==> a[k] == b[k] && b[k] == c[k],
    ensures
        !(list_before_from(a, b, i) && list_before_from(b, a, i)),
        a == b || list_before_from(a, b, i) || list_before_from(b, a, i),
        !list_before_from(a, b, i) && !list_before_from(b, c, i) ==> !list_before_from(a, c, i),
    decreases a.len() - i,
{
    if i < a.len() && i < b.len() {
        if i < c.len() {
            three_are_ordered(a[i], b[i], c[i]);
            if a[i] == b[i] && b[i] == c[i] {
                three_lists_from(a, b, c, i + 1);
            } else if a[i] == b[i] {
                three_lists_from(a, b, a, i + 1);
            }
        } else {
            three_are_ordered(a[i], b[i], a[i]);
            if a[i] == b[i] {
                three_lists_from(a, b, a, i + 1);
            }
        }
    } else if i == a.len() && i == b.len() {
        assert(a =~= b);
    }
}

/// Of any three lists of texts: no two come before each other, two that differ are in
/// order, and the order goes on from the second to the third.
pub proof fn three_lists_are_ordered(a: Seq<Seq<char>>, b: Seq<Seq<char>>, c: Seq<Seq<char>>)
    ensures
        !(list_before(a, b) && list_before(b, a)),
        a == b || list_before(a, b) || list_before(b, a),
        !list_before(a, b) && !list_before(b, c) ==> !list_before(a, c),
{
    three_lists_from(a, b, c, 0);
}

/// A text that is not empty has bytes.
pub proof fn texts_have_bytes(s: Seq<char>)
    requires
        s.len() > 0,
    ensures
        vstd::utf8::encode_utf8(s).len() > 0,
{
    reveal_with_fuel(vstd::utf8::encode_utf8, 2);
}

/// The bytes of two texts, one behind the other, are the bytes of the whole.
pub proof fn bytes_of_joined_texts(a: Seq<char>, b: Seq<char>)
    ensures
        vstd::utf8::encode_utf8(a + b) == vstd::utf8::encode_utf8(a) + vstd::utf8::encode_utf8(b),
        byte_len(a + b) == byte_len(a) + byte_len(b),
    decreases a.len(),
{
    if a.len() == 0 {
        assert(a + b =~= b);
        assert(vstd::utf8::encode_utf8(a + b) =~= vstd::utf8::encode_utf8(a)
            + vstd::utf8::encode_utf8(b));
    } else {
        bytes_of_joined_texts(a.drop_first(), b);
        assert((a + b).drop_first() =~= a.drop_first() + b);
        assert(vstd::utf8::encode_utf8(a + b) =~= vstd::utf8::encode_utf8(a)
            + vstd::utf8::encode_utf8(b));
    }
}

proof fn one_ascii_byte(c: char)
    requires
        (c as u32) < 128,
    ensures
        byte_len(seq![c]) == 1,
{
    let s = seq![c];
    assert(s.drop_first() =~= seq![]);
    reveal_with_fuel(vstd::utf8::encode_utf8, 2);
}

proof fn next_decimal(n: nat)
    ensures
        byte_len(decimal(n + 1)) <= byte_len(decimal(n)) + 1,
    decreases n,
{
    let last = digit_char((n % 10) as int);
    let next = digit_char(((n + 1) % 10) as int);
    one_ascii_byte(last);
    one_ascii_byte(next);
    if n + 1 >= 10 {
        let front = decimal((n + 1) / 10);
        assert(decimal(n + 1) =~= front + seq![next]);
        bytes_of_joined_texts(front, seq![next]);
        if n >= 10 {
            assert(decimal(n) =~= decimal(n / 10) + seq![last]);
            bytes_of_joined_texts(decimal(n / 10), seq![last]);
            if (n + 1) / 10 != n / 10 {
                assert((n + 1) / 10 == n / 10 + 1);
                next_decimal(n / 10);
            }
        } else {
            one_ascii_byte(digit_char(1));
            assert(front =~= seq![digit_char(1)]);
            assert(decimal(n) =~= seq![last]);
        }
    } else {
        assert(decimal(n) =~= seq![last]);
        assert(decimal(n + 1) =~= seq![next]);
    }
}

/// A number takes at most as many bytes more than a smaller one as it is larger.
pub proof fn decimals_grow_slowly(n: nat, more: nat)
    ensures
        byte_len(decimal(n + more)) <= byte_len(decimal(n)) + more,
    decreases more,
{
    if more > 0 {
        decimals_grow_slowly(n, (more - 1) as nat);
        next_decimal((n + more - 1) as nat);
    }
}

proof fn whole_chars_is_a_boundary(raw: Seq<u8>, i: int)
    requires
        vstd::utf8::valid_utf8(raw),
        0 <= i <= raw.len(),
    ensures
        0 <= whole_chars(raw, i) <= i,
        vstd::utf8::is_char_boundary(raw, whole_chars(raw, i)),
    decreases i,
{
    if i > 0 && !vstd::utf8::is_char_boundary(raw, i) {
        whole_chars_is_a_boundary(raw, i - 1);
    }
}

/// A bounded text takes no more bytes than the bound.
pub proof fn bounded_is_within(s: Seq<char>, max: nat)
    ensures
        byte_len(bounded(s, max)) <= max,
{
    broadcast use vstd::utf8::group_utf8_lib;

    let raw = vstd::utf8::encode_utf8(s);
    if raw.len() > max {
        whole_chars_is_a_boundary(raw, max as int);
        let start = raw.subrange(0, whole_chars(raw, max as int));
        vstd::utf8::valid_utf8_split(raw, whole_chars(raw, max as int));
        vstd::utf8::decode_utf8_encode_utf8(start);
    }
}

} // verus!
