//! What is written as JSON can be read in one way only.

use vstd::prelude::*;
use crate::digest;
use crate::json::{
    count_model, escaped_char, escaped_from, item_array, json_quoted, text_array, written,
    written_items, written_members, JsonModel, ToJson,
};
use crate::text;

verus! {

/// Every number in a value counts something.
pub open spec fn counted(value: JsonModel) -> bool
    decreases value,
{
    match value {
        JsonModel::Number(_) => exists|n: nat| value == #[trigger] count_model(n),
        JsonModel::Array(items) => forall|i: int|
            0 <= i < items.len() ==> counted(#[trigger] items[i]),
        JsonModel::Object(members) => forall|i: int|
            0 <= i < members.len() ==> counted((#[trigger] members[i]).1),
        _ => true,
    }
}

/// Where a value ends, nothing follows or one of the characters that may.
pub open spec fn ends(rest: Seq<char>) -> bool {
    rest.len() == 0 || rest[0] == ',' || rest[0] == ']' || rest[0] == '}'
}

proof fn same_front(a: Seq<char>, x: Seq<char>, b: Seq<char>, y: Seq<char>)
    requires
        a + x == b + y,
        a.len() == b.len(),
    ensures
        a == b,
        x == y,
{
    let left = a + x;
    let right = b + y;
    assert(left.len() == right.len());
    assert forall|k: int| 0 <= k < a.len() implies a[k] == b[k] by {
        assert(left[k] == a[k]);
        assert(right[k] == b[k]);
    }
    assert(a =~= b);
    assert forall|k: int| 0 <= k < x.len() implies x[k] == y[k] by {
        assert(left[a.len() + k] == x[k]);
        assert(right[a.len() + k] == y[k]);
    }
    assert(x =~= y);
}

proof fn escapes_are_told_apart(c: char, u: Seq<char>, d: char, v: Seq<char>)
    requires
        escaped_char(c) + u == escaped_char(d) + v,
    ensures
        c == d,
        u == v,
{
    let a = escaped_char(c);
    let b = escaped_char(d);
    assert((a + u)[0] == a[0]);
    assert((b + v)[0] == b[0]);
    if a.len() > 1 && b.len() > 1 {
        assert((a + u)[1] == a[1]);
        assert((b + v)[1] == b[1]);
        if a.len() > 2 && b.len() > 2 {
            assert((a + u)[4] == a[4]);
            assert((b + v)[4] == b[4]);
            assert((a + u)[5] == a[5]);
            assert((b + v)[5] == b[5]);
            digits_are_told_apart(c as int / 16, d as int / 16);
            digits_are_told_apart(c as int % 16, d as int % 16);
        }
    }
    assert(c == d);
    same_front(a, u, b, v);
}

proof fn digits_are_told_apart(a: int, b: int)
    requires
        0 <= a < 16,
        0 <= b < 16,
        digest::hex_digit(a) == digest::hex_digit(b),
    ensures
        a == b,
{
}

proof fn strings_are_told_apart_from(
    s: Seq<char>,
    i: int,
    x: Seq<char>,
    t: Seq<char>,
    j: int,
    y: Seq<char>,
)
    requires
        0 <= i <= s.len(),
        0 <= j <= t.len(),
        escaped_from(s, i) + seq!['"'] + x == escaped_from(t, j) + seq!['"'] + y,
    ensures
        s.skip(i) == t.skip(j),
        x == y,
    decreases s.len() - i,
{
    let left = escaped_from(s, i) + seq!['"'] + x;
    let right = escaped_from(t, j) + seq!['"'] + y;
    assert(left[0] == right[0]);
    if i < s.len() && j < t.len() {
        let u = escaped_from(s, i + 1) + seq!['"'] + x;
        let v = escaped_from(t, j + 1) + seq!['"'] + y;
        assert(left =~= escaped_char(s[i]) + u);
        assert(right =~= escaped_char(t[j]) + v);
        escapes_are_told_apart(s[i], u, t[j], v);
        strings_are_told_apart_from(s, i + 1, x, t, j + 1, y);
        assert(s.skip(i) =~= seq![s[i]] + s.skip(i + 1));
        assert(t.skip(j) =~= seq![t[j]] + t.skip(j + 1));
    } else if i < s.len() {
        assert(left[0] == escaped_char(s[i])[0]);
        assert(right[0] == '"');
    } else if j < t.len() {
        assert(right[0] == escaped_char(t[j])[0]);
        assert(left[0] == '"');
    } else {
        assert(left =~= seq!['"'] + x);
        assert(right =~= seq!['"'] + y);
        same_front(seq!['"'], x, seq!['"'], y);
        assert(s.skip(i) =~= t.skip(j));
    }
}

proof fn strings_are_told_apart(s: Seq<char>, x: Seq<char>, t: Seq<char>, y: Seq<char>)
    requires
        json_quoted(s) + x == json_quoted(t) + y,
    ensures
        s == t,
        x == y,
{
    let u = escaped_from(s, 0) + seq!['"'] + x;
    let v = escaped_from(t, 0) + seq!['"'] + y;
    assert(json_quoted(s) + x =~= seq!['"'] + u);
    assert(json_quoted(t) + y =~= seq!['"'] + v);
    same_front(seq!['"'], u, seq!['"'], v);
    strings_are_told_apart_from(s, 0, x, t, 0, y);
    assert(s.skip(0) =~= s);
    assert(t.skip(0) =~= t);
}

proof fn decimals_are_digits(n: nat)
    ensures
        text::decimal(n).len() > 0,
        forall|k: int|
            0 <= k < text::decimal(n).len() ==> '0' <= (#[trigger] text::decimal(n)[k]) <= '9',
    decreases n,
{
    if n >= 10 {
        decimals_are_digits(n / 10);
    }
}

proof fn decimals_are_told_apart(m: nat, n: nat)
    requires
        text::decimal(m) == text::decimal(n),
    ensures
        m == n,
    decreases m,
{
    if m >= 10 {
        decimals_are_digits(m / 10);
    }
    if n >= 10 {
        decimals_are_digits(n / 10);
    }
    let a = text::decimal(m);
    assert(a.last() == text::digit_char((m % 10) as int));
    assert(a.last() == text::digit_char((n % 10) as int));
    if m >= 10 && n >= 10 {
        assert(a.drop_last() =~= text::decimal(m / 10));
        assert(a.drop_last() =~= text::decimal(n / 10));
        decimals_are_told_apart(m / 10, n / 10);
    }
}

proof fn numbers_are_told_apart(m: nat, x: Seq<char>, n: nat, y: Seq<char>)
    requires
        text::decimal(m) + x == text::decimal(n) + y,
        ends(x),
        ends(y),
    ensures
        m == n,
        x == y,
{
    let a = text::decimal(m);
    let b = text::decimal(n);
    decimals_are_digits(m);
    decimals_are_digits(n);
    assert((a + x).len() == (b + y).len());
    if a.len() < b.len() {
        assert((a + x)[a.len() as int] == x[0]);
        assert((b + y)[a.len() as int] == b[a.len() as int]);
    } else if b.len() < a.len() {
        assert((b + y)[b.len() as int] == y[0]);
        assert((a + x)[b.len() as int] == a[b.len() as int]);
    }
    same_front(a, x, b, y);
    decimals_are_told_apart(m, n);
}

/// The character that a value begins with.
pub open spec fn opening(value: JsonModel) -> char {
    written(value)[0]
}

proof fn values_open(value: JsonModel)
    requires
        counted(value),
    ensures
        written(value).len() > 0,
        match value {
            JsonModel::Null => opening(value) == 'n',
            JsonModel::Bool(b) => opening(value) == if b {
                't'
            } else {
                'f'
            },
            JsonModel::Number(_) => '0' <= opening(value) <= '9',
            JsonModel::Text(_) => opening(value) == '"',
            JsonModel::Array(_) => opening(value) == '[',
            JsonModel::Object(_) => opening(value) == '{',
        },
{
    reveal_strlit("null");
    reveal_strlit("true");
    reveal_strlit("false");
    if value is Number {
        let n = choose|n: nat| value == #[trigger] count_model(n);
        decimals_are_digits(n);
    }
}

proof fn values_are_told_apart_from(a: JsonModel, x: Seq<char>, b: JsonModel, y: Seq<char>)
    requires
        counted(a),
        counted(b),
        ends(x),
        ends(y),
        written(a) + x == written(b) + y,
    ensures
        a == b,
        x == y,
    decreases a, 1int,
{
    values_open(a);
    values_open(b);
    assert((written(a) + x)[0] == opening(a));
    assert((written(b) + y)[0] == opening(b));
    match (a, b) {
        (JsonModel::Number(_), JsonModel::Number(_)) => {
            let m = choose|m: nat| a == #[trigger] count_model(m);
            let n = choose|n: nat| b == #[trigger] count_model(n);
            numbers_are_told_apart(m, x, n, y);
        },
        (JsonModel::Text(s), JsonModel::Text(t)) => {
            strings_are_told_apart(s, x, t, y);
        },
        (JsonModel::Array(items), JsonModel::Array(others)) => {
            let u = written_items(items, 0) + seq![']'] + x;
            let v = written_items(others, 0) + seq![']'] + y;
            assert(written(a) + x =~= seq!['['] + u);
            assert(written(b) + y =~= seq!['['] + v);
            same_front(seq!['['], u, seq!['['], v);
            items_are_told_apart_from(items, x, others, y, 0);
            assert(items.skip(0) =~= items);
            assert(others.skip(0) =~= others);
        },
        (JsonModel::Object(members), JsonModel::Object(others)) => {
            let u = written_members(members, 0) + seq!['}'] + x;
            let v = written_members(others, 0) + seq!['}'] + y;
            assert(written(a) + x =~= seq!['{'] + u);
            assert(written(b) + y =~= seq!['{'] + v);
            same_front(seq!['{'], u, seq!['{'], v);
            members_are_told_apart_from(members, x, others, y, 0);
            assert(members.skip(0) =~= members);
            assert(others.skip(0) =~= others);
        },
        _ => {
            assert(a == b);
            same_front(written(a), x, written(b), y);
        },
    }
}

proof fn items_are_told_apart_from(
    items: Seq<JsonModel>,
    x: Seq<char>,
    others: Seq<JsonModel>,
    y: Seq<char>,
    i: int,
)
    requires
        0 <= i <= items.len(),
        i <= others.len(),
        forall|k: int| 0 <= k < items.len() ==> counted(#[trigger] items[k]),
        forall|k: int| 0 <= k < others.len() ==> counted(#[trigger] others[k]),
        written_items(items, i) + seq![']'] + x == written_items(others, i) + seq![']'] + y,
    ensures
        items.skip(i) == others.skip(i),
        x == y,
    decreases items, items.len() - i,
{
    let left = written_items(items, i) + seq![']'] + x;
    let right = written_items(others, i) + seq![']'] + y;
    assert(left[0] == right[0]);
    if i < items.len() {
        values_open(items[i]);
    }
    if i < others.len() {
        values_open(others[i]);
    }
    if i < items.len() && i < others.len() {
        let comma = if i > 0 {
            seq![',']
        } else {
            seq![]
        };
        let u = written_items(items, i + 1) + seq![']'] + x;
        let v = written_items(others, i + 1) + seq![']'] + y;
        assert(ends(u));
        assert(ends(v));
        assert(left =~= comma + (written(items[i]) + u));
        assert(right =~= comma + (written(others[i]) + v));
        same_front(comma, written(items[i]) + u, comma, written(others[i]) + v);
        values_are_told_apart_from(items[i], u, others[i], v);
        items_are_told_apart_from(items, x, others, y, i + 1);
        assert(items.skip(i) =~= seq![items[i]] + items.skip(i + 1));
        assert(others.skip(i) =~= seq![others[i]] + others.skip(i + 1));
    } else if i < items.len() {
        assert(left[0] == if i > 0 {
            ','
        } else {
            opening(items[i])
        });
        assert(right[0] == ']');
    } else if i < others.len() {
        assert(right[0] == if i > 0 {
            ','
        } else {
            opening(others[i])
        });
        assert(left[0] == ']');
    } else {
        assert(left =~= seq![']'] + x);
        assert(right =~= seq![']'] + y);
        same_front(seq![']'], x, seq![']'], y);
        assert(items.skip(i) =~= others.skip(i));
    }
}

spec fn behind_member(members: Seq<(Seq<char>, JsonModel)>, i: int, x: Seq<char>) -> Seq<char> {
    written_members(members, i + 1) + seq!['}'] + x
}

proof fn members_stand_in_front(members: Seq<(Seq<char>, JsonModel)>, i: int, x: Seq<char>)
    requires
        0 <= i < members.len(),
    ensures
        ({
            let rest = behind_member(members, i, x);
            let comma = if i > 0 {
                seq![',']
            } else {
                seq![]
            };
            &&& ends(rest)
            &&& written_members(members, i) + seq!['}'] + x == comma + (json_quoted(members[i].0) + (
            seq![':'] + (written(members[i].1) + rest)))
        }),
{
    let rest = behind_member(members, i, x);
    let comma = if i > 0 {
        seq![',']
    } else {
        seq![]
    };
    let name = json_quoted(members[i].0);
    let value = written(members[i].1);
    let later = written_members(members, i + 1);
    assert(written_members(members, i) == comma + name + seq![':'] + value + later);
    assert(comma + name + seq![':'] + value + later + seq!['}'] + x =~= comma + (name + (seq![':']
        + (value + rest))));
    if i + 1 < members.len() {
        assert(later[0] == ',');
        assert(rest[0] == later[0]);
    } else {
        assert(rest[0] == '}');
    }
}

proof fn members_are_told_apart_from(
    members: Seq<(Seq<char>, JsonModel)>,
    x: Seq<char>,
    others: Seq<(Seq<char>, JsonModel)>,
    y: Seq<char>,
    i: int,
)
    requires
        0 <= i <= members.len(),
        i <= others.len(),
        forall|k: int| 0 <= k < members.len() ==> counted((#[trigger] members[k]).1),
        forall|k: int| 0 <= k < others.len() ==> counted((#[trigger] others[k]).1),
        written_members(members, i) + seq!['}'] + x == written_members(others, i) + seq!['}'] + y,
    ensures
        members.skip(i) == others.skip(i),
        x == y,
    decreases members, members.len() - i,
{
    let left = written_members(members, i) + seq!['}'] + x;
    let right = written_members(others, i) + seq!['}'] + y;
    assert(left[0] == right[0]);
    let comma = if i > 0 {
        seq![',']
    } else {
        seq![]
    };
    if i < members.len() && i < others.len() {
        let u = behind_member(members, i, x);
        let v = behind_member(others, i, y);
        members_stand_in_front(members, i, x);
        members_stand_in_front(others, i, y);
        let a = seq![':'] + (written(members[i].1) + u);
        let b = seq![':'] + (written(others[i].1) + v);
        same_front(comma, json_quoted(members[i].0) + a, comma, json_quoted(others[i].0) + b);
        strings_are_told_apart(members[i].0, a, others[i].0, b);
        same_front(
            seq![':'],
            written(members[i].1) + u,
            seq![':'],
            written(others[i].1) + v,
        );
        values_are_told_apart_from(members[i].1, u, others[i].1, v);
        members_are_told_apart_from(members, x, others, y, i + 1);
        assert(members.skip(i) =~= seq![members[i]] + members.skip(i + 1));
        assert(others.skip(i) =~= seq![others[i]] + others.skip(i + 1));
    } else if i < members.len() {
        assert(left[0] == if i > 0 {
            ','
        } else {
            '"'
        });
        assert(right[0] == '}');
    } else if i < others.len() {
        assert(right[0] == if i > 0 {
            ','
        } else {
            '"'
        });
        assert(left[0] == '}');
    } else {
        assert(left =~= seq!['}'] + x);
        assert(right =~= seq!['}'] + y);
        same_front(seq!['}'], x, seq!['}'], y);
        assert(members.skip(i) =~= others.skip(i));
    }
}

/// Two values whose numbers count something are written alike only where they are the same.
pub proof fn values_are_told_apart(a: JsonModel, b: JsonModel)
    requires
        counted(a),
        counted(b),
        written(a) == written(b),
    ensures
        a == b,
{
    let none: Seq<char> = seq![];
    assert(written(a) + none =~= written(a));
    assert(written(b) + none =~= written(b));
    values_are_told_apart_from(a, none, b, none);
}

/// Two lists are the same where they are the same as arrays and items that are the same as
/// values are the same.
pub proof fn arrays_are_told_apart<T: ToJson>(a: Seq<T::V>, b: Seq<T::V>)
    requires
        item_array::<T>(a) == item_array::<T>(b),
        forall|i: int|
            0 <= i < a.len() && i < b.len() && T::json(#[trigger] a[i]) == T::json(b[i]) ==> a[i]
                == b[i],
    ensures
        a == b,
{
    let x = item_array::<T>(a)->Array_0;
    let y = item_array::<T>(b)->Array_0;
    assert(x.len() == y.len());
    assert forall|i: int| 0 <= i < a.len() implies a[i] == b[i] by {
        assert(x[i] == T::json(a[i]));
        assert(y[i] == T::json(b[i]));
    }
    assert(a =~= b);
}

/// Two counts are the same where they are the same as values.
pub proof fn counts_are_told_apart(m: nat, n: nat)
    ensures
        counted(count_model(m)),
        count_model(m) == count_model(n) ==> m == n,
{
    if count_model(m) == count_model(n) {
        decimals_are_told_apart(m, n);
    }
}

/// Two lists of texts are the same where they are the same as arrays.
pub proof fn texts_are_told_apart(a: Seq<Seq<char>>, b: Seq<Seq<char>>)
    ensures
        counted(text_array(a)),
        text_array(a) == text_array(b) ==> a == b,
{
    let x = text_array(a)->Array_0;
    let y = text_array(b)->Array_0;
    assert forall|i: int| 0 <= i < x.len() implies counted(#[trigger] x[i]) by {}
    if x == y {
        assert(x.len() == y.len());
        assert forall|i: int| 0 <= i < a.len() implies a[i] == b[i] by {
            assert(x[i] == JsonModel::Text(a[i]));
            assert(y[i] == JsonModel::Text(b[i]));
        }
        assert(a =~= b);
    }
}

} // verus!
