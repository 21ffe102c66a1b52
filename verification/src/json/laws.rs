//! What written JSON promises of the texts in it, and what is found in a value.

use vstd::prelude::*;
use crate::digest;
use crate::json::{escaped_char, escaped_from, json_quoted, member_from, JsonModel};

verus! {

broadcast use vstd::string::group_string_axioms;

/// The character that an escape of one letter stands for.
pub open spec fn meant(letter: char) -> char {
    if letter == 'b' {
        '\u{8}'
    } else if letter == 't' {
        '\t'
    } else if letter == 'n' {
        '\n'
    } else if letter == 'f' {
        '\u{c}'
    } else if letter == 'r' {
        '\r'
    } else {
        letter
    }
}

/// A text as a reader of JSON takes it, from a place inside the quotes on.
pub open spec fn read_from(s: Seq<char>, i: int) -> Seq<char>
    decreases s.len() - i,
{
    if i < 0 || i >= s.len() {
        seq![]
    } else if s[i] == '\\' && i + 1 < s.len() {
        if s[i + 1] == 'u' && i + 5 < s.len() {
            seq![
                (digest::laws::digit_value(s[i + 4]) * 16 + digest::laws::digit_value(
                    s[i + 5],
                )) as u8 as char,
            ] + read_from(s, i + 6)
        } else {
            seq![meant(s[i + 1])] + read_from(s, i + 2)
        }
    } else {
        seq![s[i]] + read_from(s, i + 1)
    }
}

proof fn small_chars(c: char)
    requires
        c <= '\u{1f}',
    ensures
        ({
            let n = c as int;
            let d = digest::laws::digit_value(digest::hex_digit(n / 16)) * 16
                + digest::laws::digit_value(digest::hex_digit(n % 16));
            d == n && (d as u8 as char) == c
        }),
{
    let n = c as int;
    assert(0 <= n <= 31);
    let a = n / 16;
    let b = n % 16;
    assert(0 <= a < 16 && 0 <= b < 16);
    assert(digest::laws::digit_value(digest::hex_digit(a)) == a);
    assert(digest::laws::digit_value(digest::hex_digit(b)) == b);
}

proof fn escapes_are_read_from(front: Seq<char>, value: Seq<char>, i: int)
    requires
        0 <= i <= value.len(),
    ensures
        read_from(front + escaped_from(value, i), front.len() as int) == value.skip(i),
    decreases value.len() - i,
{
    let rest = escaped_from(value, i);
    let all = front + rest;
    let n = front.len() as int;
    if i < value.len() {
        let c = value[i];
        let piece = escaped_char(c);
        let next = escaped_from(value, i + 1);
        assert(rest == piece + next);
        escapes_are_read_from(front + piece, value, i + 1);
        assert(front + piece + next =~= all);
        assert(value.skip(i) =~= seq![c] + value.skip(i + 1));
        assert(all[n] == piece[0]);
        if piece.len() == 2 {
            assert(all[n + 1] == piece[1]);
            assert(read_from(all, n) == seq![c] + read_from(all, n + 2));
        } else if piece.len() == 6 {
            assert(all[n + 1] == 'u');
            assert(all[n + 4] == piece[4]);
            assert(all[n + 5] == piece[5]);
            small_chars(c);
            assert(read_from(all, n) == seq![c] + read_from(all, n + 6));
        } else {
            assert(read_from(all, n) == seq![c] + read_from(all, n + 1));
        }
    } else {
        assert(value.skip(i) =~= seq![]);
    }
}

/// A quoted text stands between double quotes, and a reader of JSON takes it as the text that it
/// was written from, whatever is in it.
pub proof fn quoted_texts_are_read_back(value: Seq<char>)
    ensures
        ({
            let quoted = json_quoted(value);
            &&& quoted.len() >= 2 && quoted[0] == '"' && quoted.last() == '"'
            &&& read_from(quoted.subrange(1, quoted.len() - 1), 0) == value
        }),
{
    let quoted = json_quoted(value);
    let inner = escaped_from(value, 0);
    assert(quoted.subrange(1, quoted.len() - 1) =~= inner);
    escapes_are_read_from(seq![], value, 0);
    assert(Seq::<char>::empty() + inner =~= inner);
    assert(value.skip(0) =~= value);
}

proof fn first_members_are_found(members: Seq<(Seq<char>, JsonModel)>, name: Seq<char>, i: int)
    requires
        0 <= i,
    ensures
        match member_from(members, name, i) {
            Some(value) => exists|k: int|
                i <= k < members.len() && #[trigger] members[k] == (name, value) && forall|n: int|
                    i <= n < k ==> (#[trigger] members[n]).0 != name,
            None => forall|k: int| i <= k < members.len() ==> (#[trigger] members[k]).0 != name,
        },
    decreases members.len() - i,
{
    if i < members.len() {
        if members[i].0 == name {
            assert(members[i] == (name, members[i].1));
        } else {
            first_members_are_found(members, name, i + 1);
            if member_from(members, name, i) is Some {
                let value = member_from(members, name, i)->0;
                let k = choose|k: int|
                    i + 1 <= k < members.len() && #[trigger] members[k] == (name, value) && forall|
                        n: int,
                    |
                        i + 1 <= n < k ==> (#[trigger] members[n]).0 != name;
                assert(members[k] == (name, value));
            }
        }
    }
}

/// The member of a name is the first of that name in an object; nothing else has members.
pub proof fn members_are_found(value: JsonModel, name: Seq<char>)
    ensures
        value matches JsonModel::Object(members) ==> match value.member(name) {
            Some(found) => exists|k: int|
                0 <= k < members.len() && #[trigger] members[k] == (name, found) && forall|n: int|
                    0 <= n < k ==> (#[trigger] members[n]).0 != name,
            None => forall|k: int| 0 <= k < members.len() ==> (#[trigger] members[k]).0 != name,
        },
        !(value is Object) ==> value.member(name) is None,
{
    if value is Object {
        first_members_are_found(value->Object_0, name, 0);
    }
}

} // verus!
