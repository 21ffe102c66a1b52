//! What the functions on texts promise together: what is split can be put together again, and
//! what is found is there.

use vstd::prelude::*;
use crate::text::{
    ascii_alphanumeric, ascii_digit, before, before_from, cut, cut_last, decimal, digit_char, drop_char,
    drop_space, found,
    found_from, has, joined, joined_from, last_found, last_found_to, lines_from, lines_of,
    lower_char, lowered, number_from, number_of, occurs_at, pieces, pieces_from, pieces_upto, runs_from, runs_of,
    skip_space,
    trimmed, trimmed_end, trimmed_end_of, trimmed_start, white_space, without_return, words_from, words_of,
};

verus! {

proof fn found_from_is_first(s: Seq<char>, p: Seq<char>, i: int)
    requires
        0 <= i,
    ensures
        match found_from(s, p, i) {
            Some(k) => i <= k && occurs_at(s, p, k) && forall|j: int|
                i <= j < k ==> !occurs_at(s, p, j),
            None => forall|j: int| i <= j ==> !occurs_at(s, p, j),
        },
    decreases s.len() + 1 - i,
{
    if i + p.len() <= s.len() && !occurs_at(s, p, i) {
        found_from_is_first(s, p, i + 1);
    }
}

proof fn last_found_to_is_last(s: Seq<char>, p: Seq<char>, i: int)
    ensures
        match last_found_to(s, p, i) {
            Some(k) => k <= i && occurs_at(s, p, k) && forall|j: int|
                k < j <= i ==> !occurs_at(s, p, j),
            None => forall|j: int| j <= i ==> !occurs_at(s, p, j),
        },
    decreases i + 1,
{
    if i >= 0 && !occurs_at(s, p, i) {
        last_found_to_is_last(s, p, i - 1);
    }
}

/// A text has a part exactly where it is some text, the part and some text; the search gives
/// the first place of the part, and the search from the end the last.
pub proof fn parts_are_found(s: Seq<char>, p: Seq<char>)
    ensures
        has(s, p) <==> exists|k: int|
            0 <= k && k + p.len() <= s.len() && #[trigger] s.subrange(k, k + p.len()) == p,
        match found(s, p) {
            Some(k) => occurs_at(s, p, k) && forall|j: int| 0 <= j < k ==> !occurs_at(s, p, j),
            None => forall|j: int| !occurs_at(s, p, j),
        },
        match last_found(s, p) {
            Some(k) => occurs_at(s, p, k) && forall|j: int| k < j ==> !occurs_at(s, p, j),
            None => forall|j: int| !occurs_at(s, p, j),
        },
{
    found_from_is_first(s, p, 0);
    last_found_to_is_last(s, p, s.len() - p.len());
    if found(s, p) is Some {
        let k = found(s, p)->0;
        assert(s.subrange(k, k + p.len()) == p);
    }
    assert forall|k: int|
        0 <= k && k + p.len() <= s.len() && #[trigger] s.subrange(k, k + p.len()) == p implies has(
        s,
        p,
    ) by {
        assert(occurs_at(s, p, k));
    }
}

/// The two sides of a cut and what stands between them are the text; the cut is at the first
/// place, and the last cut at the last.
pub proof fn cuts_can_be_mended(s: Seq<char>, p: Seq<char>)
    ensures
        cut(s, p) is Some <==> has(s, p),
        cut_last(s, p) is Some <==> has(s, p),
        match cut(s, p) {
            Some((a, b)) => s == a + p + b && forall|j: int| 0 <= j < a.len() ==> !occurs_at(s, p, j),
            None => true,
        },
        match cut_last(s, p) {
            Some((a, b)) => s == a + p + b && forall|j: int| a.len() < j ==> !occurs_at(s, p, j),
            None => true,
        },
{
    parts_are_found(s, p);
    if has(s, p) {
        let (a, b) = cut(s, p)->0;
        let k = found(s, p)->0;
        assert(occurs_at(s, p, k));
        assert(s =~= s.subrange(0, k) + s.subrange(k, k + p.len()) + s.subrange(
            k + p.len(),
            s.len() as int,
        ));
        let n = last_found(s, p)->0;
        assert(occurs_at(s, p, n));
        assert(s =~= s.subrange(0, n) + s.subrange(n, n + p.len()) + s.subrange(
            n + p.len(),
            s.len() as int,
        ));
    }
}

proof fn pieces_are_joined_from(s: Seq<char>, c: char, start: int, i: int)
    requires
        0 <= start <= i <= s.len(),
        forall|n: int| start <= n < i ==> s[n] != c,
    ensures
        ({
            let parts = pieces_from(s, c, start, i);
            &&& parts.len() > 0
            &&& forall|n: int| 0 <= n < parts.len() ==> !(#[trigger] parts[n]).contains(c)
            &&& joined(parts, seq![c]) == s.skip(start)
        }),
    decreases s.len() - i,
{
    let parts = pieces_from(s, c, start, i);
    if i >= s.len() {
        assert(joined(parts, seq![c]) =~= s.skip(start)) by {
            reveal_with_fuel(joined_from, 3);
        }
    } else if s[i] == c {
        let rest = pieces_from(s, c, i + 1, i + 1);
        pieces_are_joined_from(s, c, i + 1, i + 1);
        joined_in_front(s.subrange(start, i), rest, seq![c]);
        assert(s.skip(start) =~= s.subrange(start, i) + seq![c] + s.skip(i + 1));
        assert forall|n: int| 0 <= n < parts.len() implies !(#[trigger] parts[n]).contains(c) by {
            if n > 0 {
                assert(parts[n] == rest[n - 1]);
            }
        }
    } else {
        pieces_are_joined_from(s, c, start, i + 1);
    }
}

proof fn joined_from_one_later(first: Seq<char>, rest: Seq<Seq<char>>, sep: Seq<char>, i: int)
    requires
        0 < i,
    ensures
        joined_from(seq![first] + rest, sep, i + 1) == joined_from(rest, sep, i),
    decreases rest.len() - i,
{
    let parts = seq![first] + rest;
    if i < rest.len() {
        joined_from_one_later(first, rest, sep, i + 1);
        assert(parts[i + 1] == rest[i]);
    }
}

/// A text in front of others that are joined stands in front with one separator.
pub proof fn joined_in_front(first: Seq<char>, rest: Seq<Seq<char>>, sep: Seq<char>)
    ensures
        joined(seq![first] + rest, sep) == if rest.len() == 0 {
            first
        } else {
            first + sep + joined(rest, sep)
        },
{
    let parts = seq![first] + rest;
    reveal_with_fuel(joined_from, 3);
    if rest.len() > 0 {
        joined_from_one_later(first, rest, sep, 1);
        assert(parts[1] == rest[0]);
        assert(joined(parts, sep) =~= first + (sep + rest[0] + joined_from(parts, sep, 2)));
        assert(joined(parts, sep) =~= first + sep + joined(rest, sep));
    } else {
        assert(parts =~= seq![first]);
        assert(joined(parts, sep) =~= first);
    }
}

proof fn joined_from_one_more(parts: Seq<Seq<char>>, last: Seq<char>, sep: Seq<char>, i: int)
    requires
        0 <= i <= parts.len(),
        parts.len() > 0,
    ensures
        joined_from(parts.push(last), sep, i) == joined_from(parts, sep, i) + sep + last,
    decreases parts.len() - i,
{
    let all = parts.push(last);
    reveal_with_fuel(joined_from, 2);
    if i < parts.len() {
        joined_from_one_more(parts, last, sep, i + 1);
        assert(all[i] == parts[i]);
        assert(joined_from(all, sep, i) =~= joined_from(parts, sep, i) + sep + last);
    } else {
        assert(all[i] == last);
        assert(joined_from(all, sep, i) =~= joined_from(parts, sep, i) + sep + last);
    }
}

/// A text behind others that are joined stands behind them with one separator.
pub proof fn joined_behind(parts: Seq<Seq<char>>, last: Seq<char>, sep: Seq<char>)
    ensures
        joined(parts.push(last), sep) == if parts.len() == 0 {
            last
        } else {
            joined(parts, sep) + sep + last
        },
        joined(seq![], sep) == Seq::<char>::empty(),
        joined(seq![last], sep) == last,
{
    reveal_with_fuel(joined_from, 3);
    if parts.len() > 0 {
        joined_from_one_more(parts, last, sep, 0);
    } else {
        assert(parts.push(last) =~= seq![last]);
    }
    assert(joined(seq![last], sep) =~= last);
}

/// Texts that are not empty are joined to a text that is not.
pub proof fn joined_is_some(parts: Seq<Seq<char>>, sep: Seq<char>)
    requires
        parts.len() > 0,
        parts[0].len() > 0,
    ensures
        joined(parts, sep).len() > 0,
{
}

/// The pieces between the occurrences of a character hold none of it, and joined by it they are
/// the text again.
pub proof fn pieces_can_be_joined(s: Seq<char>, c: char)
    ensures
        pieces(s, c).len() > 0,
        forall|n: int| 0 <= n < pieces(s, c).len() ==> !(#[trigger] pieces(s, c)[n]).contains(c),
        joined(pieces(s, c), seq![c]) == s,
{
    pieces_are_joined_from(s, c, 0, 0);
    assert(s.skip(0) =~= s);
}

proof fn pieces_one_later(front: Seq<char>, s: Seq<char>, c: char, start: int, i: int)
    requires
        0 <= start <= i <= s.len(),
    ensures
        pieces_from(front + s, c, front.len() + start, front.len() + i) == pieces_from(
            s,
            c,
            start,
            i,
        ),
    decreases s.len() - i,
{
    let t = front + s;
    let m = front.len() as int;
    assert(t.subrange(m + start, m + i) =~= s.subrange(start, i));
    assert(t.subrange(m + start, t.len() as int) =~= s.subrange(start, s.len() as int));
    if i < s.len() {
        assert(t[m + i] == s[i]);
        if s[i] == c {
            pieces_one_later(front, s, c, i + 1, i + 1);
        } else {
            pieces_one_later(front, s, c, start, i + 1);
        }
    }
}

proof fn pieces_of_two_from(a: Seq<char>, b: Seq<char>, c: char, start: int, i: int)
    requires
        0 <= start <= i <= a.len(),
    ensures
        pieces_from(a + seq![c] + b, c, start, i) == pieces_from(a, c, start, i) + pieces(b, c),
    decreases a.len() - i,
{
    let s = a + seq![c] + b;
    let n = a.len() as int;
    if i < n {
        assert(s[i] == a[i]);
        assert(s.subrange(start, i) =~= a.subrange(start, i));
        if a[i] == c {
            pieces_of_two_from(a, b, c, i + 1, i + 1);
            assert(pieces_from(s, c, start, i) =~= pieces_from(a, c, start, i) + pieces(b, c));
        } else {
            pieces_of_two_from(a, b, c, start, i + 1);
        }
    } else {
        assert(s[n] == c);
        assert(s.subrange(start, n) =~= a.subrange(start, n));
        assert(s =~= (a + seq![c]) + b);
        pieces_one_later(a + seq![c], b, c, 0, 0);
    }
}

/// The pieces of two texts with the character between them are those of the one and those of
/// the other.
pub proof fn pieces_of_two(a: Seq<char>, b: Seq<char>, c: char)
    ensures
        pieces(a + seq![c] + b, c) == pieces(a, c) + pieces(b, c),
        !a.contains(c) ==> pieces(a, c) == seq![a],
{
    pieces_of_two_from(a, b, c, 0, 0);
    if !a.contains(c) {
        one_piece(a, c, 0);
    }
}

proof fn one_piece(s: Seq<char>, c: char, i: int)
    requires
        0 <= i <= s.len(),
        !s.contains(c),
    ensures
        pieces_from(s, c, 0, i) == seq![s],
    decreases s.len() - i,
{
    if i < s.len() {
        assert(s.contains(s[i]));
        one_piece(s, c, i + 1);
    } else {
        assert(s.subrange(0, s.len() as int) =~= s);
    }
}

/// The first piece of a text is what stands in front of the first occurrence of a character.
pub proof fn first_pieces_are_cut(a: Seq<char>, b: Seq<char>, c: char)
    requires
        !a.contains(c),
    ensures
        cut(a + seq![c] + b, seq![c]) == Some((a, b)),
{
    let s = a + seq![c] + b;
    let n = a.len() as int;
    parts_are_found(s, seq![c]);
    assert(s.subrange(n, n + 1) =~= seq![c]);
    assert(occurs_at(s, seq![c], n));
    assert forall|j: int| 0 <= j < n implies !occurs_at(s, seq![c], j) by {
        assert(s.subrange(j, j + 1)[0] == s[j]);
        assert(s[j] == a[j]);
        assert(a.contains(a[j]));
    }
    assert(found(s, seq![c]) == Some(n));
    assert(s.subrange(0, n) =~= a);
    assert(s.subrange(n + 1, s.len() as int) =~= b);
}

/// The last piece of a text is what stands behind the last occurrence of a character.
pub proof fn last_pieces_are_cut(a: Seq<char>, b: Seq<char>, c: char)
    requires
        !b.contains(c),
    ensures
        cut_last(a + seq![c] + b, seq![c]) == Some((a, b)),
{
    let s = a + seq![c] + b;
    let n = a.len() as int;
    parts_are_found(s, seq![c]);
    assert(s.subrange(n, n + 1) =~= seq![c]);
    assert(occurs_at(s, seq![c], n));
    assert forall|j: int| n < j implies !occurs_at(s, seq![c], j) by {
        if occurs_at(s, seq![c], j) {
            assert(s.subrange(j, j + 1)[0] == s[j]);
            assert(b[j - n - 1] == s[j]);
            assert(b.contains(c));
        }
    }
    assert(last_found(s, seq![c]) == Some(n));
    assert(s.subrange(0, n) =~= a);
    assert(s.subrange(n + 1, s.len() as int) =~= b);
}

/// Fields with a character between them are read as themselves, up to a number of them; the last
/// may hold the character too.
pub proof fn fields_are_read(fields: Seq<Seq<char>>, c: char)
    requires
        fields.len() > 0,
        forall|k: int| 0 <= k < fields.len() - 1 ==> !(#[trigger] fields[k]).contains(c),
    ensures
        pieces_upto(joined(fields, seq![c]), c, fields.len() as int) == fields,
    decreases fields.len(),
{
    if fields.len() == 1 {
        joined_behind(seq![], fields[0], seq![c]);
        assert(fields =~= seq![fields[0]]);
        assert(pieces_upto(fields[0], c, 1) =~= fields);
    } else {
        let rest = fields.skip(1);
        assert(fields =~= seq![fields[0]] + rest);
        joined_in_front(fields[0], rest, seq![c]);
        assert forall|k: int| 0 <= k < rest.len() - 1 implies !(#[trigger] rest[k]).contains(c) by {
            assert(rest[k] == fields[k + 1]);
        }
        fields_are_read(rest, c);
        first_pieces_are_cut(fields[0], joined(rest, seq![c]), c);
    }
}

proof fn one_line_is_read(s: Seq<char>, start: int, i: int, n: int)
    requires
        0 <= start <= i <= n < s.len(),
        s[n] == '\n',
        forall|k: int| i <= k < n ==> s[k] != '\n',
    ensures
        lines_from(s, start, i) == seq![without_return(s.subrange(start, n))] + lines_from(
            s,
            n + 1,
            n + 1,
        ),
    decreases n - i,
{
    if i < n {
        one_line_is_read(s, start, i + 1, n);
    }
}

proof fn lines_one_later(front: Seq<char>, s: Seq<char>, start: int, i: int)
    requires
        0 <= start <= i <= s.len(),
    ensures
        lines_from(front + s, front.len() + start, front.len() + i) == lines_from(s, start, i),
    decreases s.len() - i,
{
    let t = front + s;
    let m = front.len() as int;
    assert(t.subrange(m + start, m + i) =~= s.subrange(start, i));
    assert(t.subrange(m + start, t.len() as int) =~= s.subrange(start, s.len() as int));
    if i < s.len() {
        assert(t[m + i] == s[i]);
        if s[i] == '\n' {
            lines_one_later(front, s, i + 1, i + 1);
        } else {
            lines_one_later(front, s, start, i + 1);
        }
    }
}

/// A line that holds no line feed and is followed by one is the first line of a text, without
/// the carriage return it may end with; the other lines are those of the rest.
pub proof fn first_lines_are_read(line: Seq<char>, rest: Seq<char>)
    requires
        !line.contains('\n'),
    ensures
        lines_of(line + seq!['\n'] + rest) == seq![without_return(line)] + lines_of(rest),
        line.len() > 0 ==> lines_of(line) == seq![line],
        lines_of(seq![]) == Seq::<Seq<char>>::empty(),
{
    let s = line + seq!['\n'] + rest;
    let n = line.len() as int;
    assert forall|k: int| 0 <= k < n implies s[k] != '\n' by {
        assert(s[k] == line[k]);
        assert(line.contains(line[k]));
    }
    assert(s[n] == '\n');
    one_line_is_read(s, 0, 0, n);
    assert(s.subrange(0, n) =~= line);
    let front = line + seq!['\n'];
    assert(front + rest =~= s);
    lines_one_later(front, rest, 0, 0);
    last_line_is_read(line, 0);
}

proof fn last_line_is_read(line: Seq<char>, i: int)
    requires
        0 <= i <= line.len(),
        !line.contains('\n'),
    ensures
        line.len() > 0 ==> lines_from(line, 0, i) == seq![line],
    decreases line.len() - i,
{
    if i < line.len() {
        assert(line.contains(line[i]));
        last_line_is_read(line, i + 1);
    } else {
        assert(line.subrange(0, line.len() as int) =~= line);
    }
}

/// The value that decimal digits have after a value in front of them.
proof fn decimal_is_read_from(n: nat, rest: Seq<char>, s: Seq<char>)
    requires
        n <= u64::MAX,
        s == decimal(n) + rest,
    ensures
        decimal(n).len() > 0,
        forall|k: int| 0 <= k < decimal(n).len() ==> ascii_digit(#[trigger] decimal(n)[k]),
        number_from(s, 0, 0) == number_from(s, decimal(n).len() as int, n as int),
    decreases n,
{
    let d = (n % 10) as int;
    assert(0 <= d < 10);
    assert(digit_char(d) as int == '0' as int + d);
    if n < 10 {
        assert(s[0] == digit_char(n as int));
        assert(digit_char(n as int) as int == '0' as int + n);
        assert(number_from(s, 0, 0) == number_from(s, 1, n as int));
    } else {
        let front = decimal(n / 10);
        let later = seq![digit_char(d)] + rest;
        assert(s =~= front + later);
        decimal_is_read_from(n / 10, later, s);
        let m = front.len() as int;
        assert(s[m] == digit_char(d));
        assert((n / 10) * 10 + d == n);
        assert(number_from(s, m, (n / 10) as int) == number_from(s, m + 1, n as int));
        assert forall|k: int| 0 <= k < decimal(n).len() implies ascii_digit(
            #[trigger] decimal(n)[k],
        ) by {
            if k < m {
                assert(decimal(n)[k] == front[k]);
            } else {
                assert(decimal(n)[k] == digit_char(d));
            }
        }
    }
}

/// A number that is written in decimal digits is read as itself.
pub proof fn written_numbers_are_read(n: nat)
    requires
        n <= u64::MAX,
    ensures
        number_of(decimal(n)) == Some(n as u64),
        decimal(n).len() > 0,
        forall|k: int| 0 <= k < decimal(n).len() ==> ascii_digit(#[trigger] decimal(n)[k]),
{
    assert(decimal(n) =~= decimal(n) + seq![]);
    decimal_is_read_from(n, seq![], decimal(n));
    assert(ascii_digit(decimal(n)[0]));
}

proof fn spaces_are_skipped(s: Seq<char>, i: int)
    requires
        0 <= i <= s.len(),
    ensures
        i <= skip_space(s, i) <= s.len(),
        forall|k: int| i <= k < skip_space(s, i) ==> white_space(#[trigger] s[k]),
        skip_space(s, i) < s.len() ==> !white_space(s[skip_space(s, i)]),
    decreases s.len() - i,
{
    if i < s.len() && white_space(s[i]) {
        spaces_are_skipped(s, i + 1);
    }
}

proof fn spaces_are_dropped(s: Seq<char>, j: int)
    requires
        0 <= j <= s.len(),
    ensures
        0 <= drop_space(s, j) <= j,
        forall|k: int| drop_space(s, j) <= k < j ==> white_space(#[trigger] s[k]),
        drop_space(s, j) > 0 ==> !white_space(s[drop_space(s, j) - 1]),
    decreases j,
{
    if 0 < j && white_space(s[j - 1]) {
        spaces_are_dropped(s, j - 1);
    }
}

/// A text with white space around it is trimmed to the text itself, where this begins and ends
/// with something else.
pub proof fn surrounding_space_is_trimmed(before: Seq<char>, s: Seq<char>, after: Seq<char>)
    requires
        s.len() > 0,
        !white_space(s[0]),
        !white_space(s.last()),
        forall|k: int| 0 <= k < before.len() ==> white_space(#[trigger] before[k]),
        forall|k: int| 0 <= k < after.len() ==> white_space(#[trigger] after[k]),
    ensures
        trimmed(before + s + after) == s,
        trimmed_start(before + s + after) == s + after,
        trimmed_end(before + s + after) == before + s,
        trimmed(before) == Seq::<char>::empty(),
{
    let t = before + s + after;
    let m = before.len() as int;
    spaces_are_skipped(t, 0);
    assert(t[m] == s[0]);
    assert forall|k: int| 0 <= k < m implies white_space(#[trigger] t[k]) by {
        assert(t[k] == before[k]);
    }
    assert(skip_space(t, 0) == m);
    assert(trimmed_start(t) =~= s + after);
    let u = s + after;
    let n = s.len() as int;
    spaces_are_dropped(u, u.len() as int);
    assert(u[n - 1] == s.last());
    assert forall|k: int| n <= k < u.len() implies white_space(#[trigger] u[k]) by {
        assert(u[k] == after[k - n]);
    }
    assert(drop_space(u, u.len() as int) == n);
    assert(trimmed_end(u) =~= s);
    spaces_are_dropped(t, t.len() as int);
    assert(t[m + n - 1] == s.last());
    assert forall|k: int| m + n <= k < t.len() implies white_space(#[trigger] t[k]) by {
        assert(t[k] == after[k - m - n]);
    }
    assert(drop_space(t, t.len() as int) == m + n);
    assert(trimmed_end(t) =~= before + s);
    spaces_are_skipped(before, 0);
    assert(skip_space(before, 0) == before.len());
    assert(trimmed_start(before) =~= seq![]);
    assert(trimmed(before) =~= seq![]);
}

proof fn nothing_is_dropped(s: Seq<char>, c: char)
    ensures
        s.len() > 0 && s.last() != c ==> trimmed_end_of(s, c) == s,
{
    assert(s.subrange(0, s.len() as int) =~= s);
}

/// A character at the end of a text is dropped, however often it stands there.
pub proof fn trailing_chars_are_dropped(s: Seq<char>, c: char, n: nat)
    requires
        s.len() > 0,
        s.last() != c,
    ensures
        trimmed_end_of(s + Seq::new(n, |i: int| c), c) == s,
    decreases n,
{
    let t = s + Seq::new(n, |i: int| c);
    if n == 0 {
        assert(t =~= s);
        nothing_is_dropped(s, c);
    } else {
        trailing_chars_are_dropped(s, c, (n - 1) as nat);
        let u = s + Seq::new((n - 1) as nat, |i: int| c);
        assert(t[t.len() - 1] == c);
        dropped_alike(t, u, c, u.len() as int);
        assert(t.subrange(0, drop_char(u, c, u.len() as int)) =~= u.subrange(
            0,
            drop_char(u, c, u.len() as int),
        ));
    }
}

proof fn dropped_alike(t: Seq<char>, u: Seq<char>, c: char, j: int)
    requires
        0 <= j <= u.len() <= t.len(),
        forall|k: int| 0 <= k < u.len() ==> t[k] == u[k],
    ensures
        drop_char(t, c, j) == drop_char(u, c, j),
        0 <= drop_char(u, c, j) <= j,
    decreases j,
{
    if 0 < j && u[j - 1] == c {
        dropped_alike(t, u, c, j - 1);
    }
}

proof fn one_word_is_read(s: Seq<char>, start: int, i: int, n: int)
    requires
        0 <= start <= i <= n <= s.len(),
        start < n,
        n < s.len() ==> white_space(s[n]),
        forall|k: int| i <= k < n ==> !white_space(#[trigger] s[k]),
    ensures
        words_from(s, start, i) == seq![s.subrange(start, n)] + if n < s.len() {
            words_from(s, n + 1, n + 1)
        } else {
            seq![]
        },
    decreases n - i,
{
    if i < n {
        one_word_is_read(s, start, i + 1, n);
    } else if n == s.len() {
        assert(words_from(s, start, i) =~= seq![s.subrange(start, n)] + Seq::empty());
    }
}

proof fn words_one_later(front: Seq<char>, s: Seq<char>, start: int, i: int)
    requires
        0 <= start <= i <= s.len(),
    ensures
        words_from(front + s, front.len() + start, front.len() + i) == words_from(s, start, i),
    decreases s.len() - i,
{
    let t = front + s;
    let m = front.len() as int;
    assert(t.subrange(m + start, m + i) =~= s.subrange(start, i));
    assert(t.subrange(m + start, t.len() as int) =~= s.subrange(start, s.len() as int));
    if i < s.len() {
        assert(t[m + i] == s[i]);
        if white_space(s[i]) {
            words_one_later(front, s, i + 1, i + 1);
        } else {
            words_one_later(front, s, start, i + 1);
        }
    }
}

/// The first word of a text is what stands in front of the first white space; the other words
/// are those behind it, and white space by itself is no word.
pub proof fn words_are_read(word: Seq<char>, space: char, rest: Seq<char>)
    requires
        white_space(space),
        forall|k: int| 0 <= k < word.len() ==> !white_space(#[trigger] word[k]),
    ensures
        word.len() > 0 ==> words_of(word + seq![space] + rest) == seq![word] + words_of(rest),
        word.len() > 0 ==> words_of(word) == seq![word],
        words_of(seq![space] + rest) == words_of(rest),
        words_of(seq![]) == Seq::<Seq<char>>::empty(),
{
    let s = word + seq![space] + rest;
    let n = word.len() as int;
    if n > 0 {
        assert forall|k: int| 0 <= k < n implies !white_space(#[trigger] s[k]) by {
            assert(s[k] == word[k]);
        }
        assert(s[n] == space);
        one_word_is_read(s, 0, 0, n);
        assert(s.subrange(0, n) =~= word);
        let front = word + seq![space];
        assert(front + rest =~= s);
        words_one_later(front, rest, 0, 0);
        one_word_is_read(word, 0, 0, n);
        assert(word.subrange(0, n) =~= word);
        assert(words_of(word) =~= seq![word]);
    }
    let t = seq![space] + rest;
    assert(t[0] == space);
    words_one_later(seq![space], rest, 0, 0);
}

proof fn one_run_is_read(s: Seq<char>, start: int, i: int, n: int)
    requires
        0 <= start <= i <= n <= s.len(),
        start < n,
        n < s.len() ==> !ascii_alphanumeric(s[n]),
        forall|k: int| i <= k < n ==> ascii_alphanumeric(#[trigger] s[k]),
    ensures
        runs_from(s, start, i) == seq![s.subrange(start, n)] + if n < s.len() {
            runs_from(s, n + 1, n + 1)
        } else {
            seq![]
        },
    decreases n - i,
{
    if i < n {
        one_run_is_read(s, start, i + 1, n);
    } else if n == s.len() {
        assert(runs_from(s, start, i) =~= seq![s.subrange(start, n)] + Seq::empty());
    }
}

proof fn runs_one_later(front: Seq<char>, s: Seq<char>, start: int, i: int)
    requires
        0 <= start <= i <= s.len(),
    ensures
        runs_from(front + s, front.len() + start, front.len() + i) == runs_from(s, start, i),
    decreases s.len() - i,
{
    let t = front + s;
    let m = front.len() as int;
    assert(t.subrange(m + start, m + i) =~= s.subrange(start, i));
    assert(t.subrange(m + start, t.len() as int) =~= s.subrange(start, s.len() as int));
    if i < s.len() {
        assert(t[m + i] == s[i]);
        if !ascii_alphanumeric(s[i]) {
            runs_one_later(front, s, i + 1, i + 1);
        } else {
            runs_one_later(front, s, start, i + 1);
        }
    }
}

/// The first run of letters and digits of a text is what stands in front of the first other
/// character; the other runs are those behind it, and other characters by themselves are none.
pub proof fn runs_are_read(run: Seq<char>, other: char, rest: Seq<char>)
    requires
        !ascii_alphanumeric(other),
        forall|k: int| 0 <= k < run.len() ==> ascii_alphanumeric(#[trigger] run[k]),
    ensures
        run.len() > 0 ==> runs_of(run + seq![other] + rest) == seq![run] + runs_of(rest),
        run.len() > 0 ==> runs_of(run) == seq![run],
        runs_of(seq![other] + rest) == runs_of(rest),
{
    let s = run + seq![other] + rest;
    let n = run.len() as int;
    if n > 0 {
        assert forall|k: int| 0 <= k < n implies ascii_alphanumeric(#[trigger] s[k]) by {
            assert(s[k] == run[k]);
        }
        assert(s[n] == other);
        one_run_is_read(s, 0, 0, n);
        assert(s.subrange(0, n) =~= run);
        let front = run + seq![other];
        assert(front + rest =~= s);
        runs_one_later(front, rest, 0, 0);
        one_run_is_read(run, 0, 0, n);
        assert(run.subrange(0, n) =~= run);
        assert(runs_of(run) =~= seq![run]);
    }
    let t = seq![other] + rest;
    assert(t[0] == other);
    runs_one_later(seq![other], rest, 0, 0);
}

proof fn last_word_is_read_from(front: Seq<char>, space: char, word: Seq<char>, start: int, i: int)
    requires
        white_space(space),
        word.len() > 0,
        forall|k: int| 0 <= k < word.len() ==> !white_space(#[trigger] word[k]),
        0 <= start <= i <= front.len(),
    ensures
        words_from(front + seq![space] + word, start, i) == words_from(front, start, i).push(word),
    decreases front.len() - i,
{
    let s = front + seq![space] + word;
    let n = front.len() as int;
    assert(s.subrange(start, i) =~= front.subrange(start, i));
    if i < n {
        assert(s[i] == front[i]);
        if white_space(front[i]) {
            last_word_is_read_from(front, space, word, i + 1, i + 1);
            assert(words_from(s, start, i) =~= words_from(front, start, i).push(word));
        } else {
            last_word_is_read_from(front, space, word, start, i + 1);
        }
    } else {
        assert(s[n] == space);
        assert(s =~= (front + seq![space]) + word);
        words_one_later(front + seq![space], word, 0, 0);
        one_word_is_read(word, 0, 0, word.len() as int);
        assert(word.subrange(0, word.len() as int) =~= word);
        assert(words_of(word) =~= seq![word]);
        assert(words_from(s, start, i) =~= words_from(front, start, i).push(word));
    }
}

/// A word behind a text and a space is the last word, behind those of the text.
pub proof fn last_words_are_read(front: Seq<char>, space: char, word: Seq<char>)
    requires
        white_space(space),
        word.len() > 0,
        forall|k: int| 0 <= k < word.len() ==> !white_space(#[trigger] word[k]),
    ensures
        words_of(front + seq![space] + word) == words_of(front).push(word),
{
    last_word_is_read_from(front, space, word, 0, 0);
}

/// Words that are joined by a space are read as themselves.
pub proof fn joined_words_are_read(words: Seq<Seq<char>>)
    requires
        forall|k: int| 0 <= k < words.len() ==> (#[trigger] words[k]).len() > 0,
        forall|k: int, n: int|
            0 <= k < words.len() && 0 <= n < words[k].len() ==> !white_space(
                #[trigger] words[k][n],
            ),
    ensures
        words_of(joined(words, seq![' '])) == words,
    decreases words.len(),
{
    if words.len() == 0 {
        joined_behind(words, seq![], seq![' ']);
        assert(words =~= seq![]);
        words_are_read(seq![], ' ', seq![]);
    } else {
        let rest = words.skip(1);
        assert(words =~= seq![words[0]] + rest);
        joined_in_front(words[0], rest, seq![' ']);
        assert forall|k: int| 0 <= k < rest.len() implies (#[trigger] rest[k]).len() > 0 by {
            assert(rest[k] == words[k + 1]);
        }
        assert forall|k: int, n: int| 0 <= k < rest.len() && 0 <= n < rest[k].len() implies !white_space(
            #[trigger] rest[k][n],
        ) by {
            assert(rest[k] == words[k + 1]);
            assert(!white_space(words[k + 1][n]));
        }
        joined_words_are_read(rest);
        assert forall|n: int| 0 <= n < words[0].len() implies !white_space(
            #[trigger] words[0][n],
        ) by {}
        words_are_read(words[0], ' ', joined(rest, seq![' ']));
        if rest.len() == 0 {
            assert(words =~= seq![words[0]]);
        }
    }
}

/// Only the letters from A to Z are changed to lower case, each to its own small letter, and a
/// text keeps its length.
pub proof fn capitals_are_lowered(s: Seq<char>, i: int)
    requires
        0 <= i < s.len(),
    ensures
        lowered(s).len() == s.len(),
        lowered(lowered(s)) == lowered(s),
        !('A' <= s[i] <= 'Z') ==> lowered(s)[i] == s[i],
        'A' <= s[i] <= 'Z' ==> 'a' <= lowered(s)[i] <= 'z' && lowered(s)[i] as int - 'a' as int
            == s[i] as int - 'A' as int,
{
    assert forall|k: int| 0 <= k < s.len() implies lower_char(lower_char(#[trigger] s[k]))
        == lower_char(s[k]) by {
        if 'A' <= s[k] <= 'Z' {
            assert(lower_char(s[k]) as int == s[k] as int + 32);
        }
    }
    assert(lowered(lowered(s)) =~= lowered(s));
    if 'A' <= s[i] <= 'Z' {
        assert(lower_char(s[i]) as int == s[i] as int + 32);
    }
}

proof fn before_from_is_by_first_difference(a: Seq<char>, b: Seq<char>, i: int)
    requires
        0 <= i <= a.len(),
        i <= b.len(),
        a.take(i) == b.take(i),
    ensures
        before_from(a, b, i) <==> exists|k: int|
            i <= k <= a.len() && k < b.len() && #[trigger] a.take(k) == b.take(k) && (k == a.len()
                || a[k] < b[k]),
    decreases a.len() - i,
{
    if i < b.len() && i < a.len() {
        if a[i] == b[i] {
            assert(a.take(i + 1) =~= a.take(i).push(a[i]));
            assert(b.take(i + 1) =~= b.take(i).push(b[i]));
            before_from_is_by_first_difference(a, b, i + 1);
            assert forall|k: int|
                i <= k <= a.len() && k < b.len() && #[trigger] a.take(k) == b.take(k) && (k
                    == a.len() || a[k] < b[k]) implies k > i by {}
        } else {
            assert forall|k: int|
                i <= k <= a.len() && k < b.len() && #[trigger] a.take(k) == b.take(k) implies k
                == i by {
                if k > i {
                    assert(a.take(k)[i] == b.take(k)[i]);
                }
            }
            assert(a.take(i) == b.take(i));
        }
    } else if i < b.len() {
        assert(a.take(a.len() as int) == b.take(i));
    }
}

/// One text comes before another exactly where the first is a proper beginning of the second,
/// or has the smaller character at the first place where they differ.
pub proof fn texts_are_ordered_by_first_difference(a: Seq<char>, b: Seq<char>)
    ensures
        before(a, b) <==> exists|k: int|
            0 <= k <= a.len() && k < b.len() && #[trigger] a.take(k) == b.take(k) && (k == a.len()
                || a[k] < b[k]),
{
    assert(a.take(0) =~= b.take(0));
    before_from_is_by_first_difference(a, b, 0);
}

} // verus!
