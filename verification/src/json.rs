//! JSON values, as read from and written to the wire.

use vstd::prelude::*;
use serde_json::Value;
use crate::digest;
use crate::text;

pub mod laws;
pub mod writing;

verus! {

broadcast use vstd::string::group_string_axioms;

/// A number, by the readings that callers need and by its text.
#[derive(Debug, PartialEq, Eq)]
pub struct JsonNumber {
    pub unsigned: Option<u64>,
    pub signed: Option<i64>,
    pub text: String,
}

#[derive(Debug, PartialEq, Eq)]
pub struct JsonMember {
    pub name: String,
    pub value: Json,
}

#[derive(Debug, PartialEq, Eq)]
pub enum Json {
    Null,
    Bool(bool),
    Number(JsonNumber),
    Text(String),
    Array(Vec<Json>),
    Object(Vec<JsonMember>),
}

pub struct NumberModel {
    pub unsigned: Option<u64>,
    pub signed: Option<i64>,
    pub text: Seq<char>,
}

/// What a JSON value says.
pub enum JsonModel {
    Null,
    Bool(bool),
    Number(NumberModel),
    Text(Seq<char>),
    Array(Seq<JsonModel>),
    Object(Seq<(Seq<char>, JsonModel)>),
}

impl Json {
    pub open spec fn model(self) -> JsonModel
        decreases self,
    {
        match self {
            Json::Null => JsonModel::Null,
            Json::Bool(b) => JsonModel::Bool(b),
            Json::Number(n) => JsonModel::Number(
                NumberModel { unsigned: n.unsigned, signed: n.signed, text: n.text@ },
            ),
            Json::Text(s) => JsonModel::Text(s@),
            Json::Array(items) => JsonModel::Array(
                Seq::new(
                    items@.len(),
                    |i: int|
                        if 0 <= i < items@.len() {
                            items@[i].model()
                        } else {
                            JsonModel::Null
                        },
                ),
            ),
            Json::Object(members) => JsonModel::Object(
                Seq::new(
                    members@.len(),
                    |i: int|
                        if 0 <= i < members@.len() {
                            (members@[i].name@, members@[i].value.model())
                        } else {
                            (seq![], JsonModel::Null)
                        },
                ),
            ),
        }
    }
}

/// `serde_json::Value`, which this crate only moves into a value of its own.
#[verifier::external_type_specification]
#[verifier::external_body]
pub struct ExValue(serde_json::Value);

/// What `serde_json` reads from a document: its value, or the text of its error.
pub uninterp spec fn json_document(raw: Seq<u8>) -> Result<JsonModel, Seq<char>>;

/// A character as it stands in a string of a document: quotes, backslashes and control
/// characters are escaped, and every other one stands for itself.
pub open spec fn escaped_char(c: char) -> Seq<char> {
    if c == '"' || c == '\\' {
        seq!['\\', c]
    } else if c == '\u{8}' {
        seq!['\\', 'b']
    } else if c == '\t' {
        seq!['\\', 't']
    } else if c == '\n' {
        seq!['\\', 'n']
    } else if c == '\u{c}' {
        seq!['\\', 'f']
    } else if c == '\r' {
        seq!['\\', 'r']
    } else if c <= '\u{1f}' {
        seq![
            '\\',
            'u',
            '0',
            '0',
            digest::hex_digit(c as int / 16),
            digest::hex_digit(c as int % 16),
        ]
    } else {
        seq![c]
    }
}

/// The characters of a string from `i` on, as they stand in a document.
pub open spec fn escaped_from(text: Seq<char>, i: int) -> Seq<char>
    decreases text.len() - i,
{
    if i < 0 || i >= text.len() {
        seq![]
    } else {
        escaped_char(text[i]) + escaped_from(text, i + 1)
    }
}

/// A string as it stands in a document: in quotes, with its escapes.
pub open spec fn json_quoted(text: Seq<char>) -> Seq<char> {
    seq!['"'] + escaped_from(text, 0) + seq!['"']
}

/// The member of an object with the given name.
pub open spec fn member_from(
    members: Seq<(Seq<char>, JsonModel)>,
    name: Seq<char>,
    i: int,
) -> Option<JsonModel>
    decreases members.len() - i,
{
    if i < 0 || i >= members.len() {
        None
    } else if members[i].0 == name {
        Some(members[i].1)
    } else {
        member_from(members, name, i + 1)
    }
}

impl JsonModel {
    pub open spec fn member(self, name: Seq<char>) -> Option<JsonModel> {
        match self {
            JsonModel::Object(members) => member_from(members, name, 0),
            _ => None,
        }
    }

    pub open spec fn text(self) -> Option<Seq<char>> {
        match self {
            JsonModel::Text(s) => Some(s),
            _ => None,
        }
    }

    pub open spec fn boolean(self) -> Option<bool> {
        match self {
            JsonModel::Bool(b) => Some(b),
            _ => None,
        }
    }

    pub open spec fn unsigned(self) -> Option<u64> {
        match self {
            JsonModel::Number(n) => n.unsigned,
            _ => None,
        }
    }

    pub open spec fn signed(self) -> Option<i64> {
        match self {
            JsonModel::Number(n) => n.signed,
            _ => None,
        }
    }

    /// The items of an array; any other value has none.
    pub open spec fn items(self) -> Seq<JsonModel> {
        match self {
            JsonModel::Array(items) => items,
            _ => seq![],
        }
    }

    pub open spec fn member_text(self, name: Seq<char>) -> Option<Seq<char>> {
        match self.member(name) {
            Some(value) => value.text(),
            None => None,
        }
    }

    pub open spec fn member_boolean(self, name: Seq<char>) -> Option<bool> {
        match self.member(name) {
            Some(value) => value.boolean(),
            None => None,
        }
    }

    pub open spec fn member_unsigned(self, name: Seq<char>) -> Option<u64> {
        match self.member(name) {
            Some(value) => value.unsigned(),
            None => None,
        }
    }

    /// The items of the array under a name; none where there is no such array.
    pub open spec fn member_items(self, name: Seq<char>) -> Seq<JsonModel> {
        match self.member(name) {
            Some(value) => value.items(),
            None => seq![],
        }
    }
}

/// The values of a list.
pub open spec fn models(values: Seq<Json>) -> Seq<JsonModel> {
    Seq::new(values.len(), |i: int| values[i].model())
}

/// The names and values of the members of an object.
pub open spec fn member_models(members: Seq<JsonMember>) -> Seq<(Seq<char>, JsonModel)> {
    Seq::new(members.len(), |i: int| (members[i].name@, members[i].value.model()))
}

/// Compact JSON: no white space, members in their order.
pub open spec fn written(value: JsonModel) -> Seq<char>
    decreases value, 0int,
{
    match value {
        JsonModel::Null => "null"@,
        JsonModel::Bool(b) => if b {
            "true"@
        } else {
            "false"@
        },
        JsonModel::Number(n) => n.text,
        JsonModel::Text(s) => json_quoted(s),
        JsonModel::Array(items) => seq!['['] + written_items(items, 0) + seq![']'],
        JsonModel::Object(members) => seq!['{'] + written_members(members, 0) + seq!['}'],
    }
}

/// The items from `i` on, with commas between.
pub open spec fn written_items(items: Seq<JsonModel>, i: int) -> Seq<char>
    decreases items, items.len() - i,
{
    if i < 0 || i >= items.len() {
        seq![]
    } else {
        (if i > 0 {
            seq![',']
        } else {
            seq![]
        }) + written(items[i]) + written_items(items, i + 1)
    }
}

/// The members from `i` on, with commas between.
pub open spec fn written_members(members: Seq<(Seq<char>, JsonModel)>, i: int) -> Seq<char>
    decreases members, members.len() - i,
{
    if i < 0 || i >= members.len() {
        seq![]
    } else {
        (if i > 0 {
            seq![',']
        } else {
            seq![]
        }) + json_quoted(members[i].0) + seq![':'] + written(members[i].1) + written_members(
            members,
            i + 1,
        )
    }
}

/// A number that counts something.
pub open spec fn count_model(n: nat) -> JsonModel {
    JsonModel::Number(
        NumberModel {
            unsigned: Some(n as u64),
            signed: if n <= i64::MAX {
                Some(n as i64)
            } else {
                None
            },
            text: text::decimal(n),
        },
    )
}

/// `serde_json::from_slice`: reads one document as a value. The value or the
/// text of the error is a function of the bytes, named `json_document`.
#[verifier::external_body]
pub(crate) fn read_document(raw: &[u8]) -> (r: Result<Json, String>)
    ensures
        match r {
            Ok(value) => json_document(raw@) == Ok::<JsonModel, Seq<char>>(value.model()),
            Err(message) => json_document(raw@) == Err::<JsonModel, Seq<char>>(message@),
        },
{
    match serde_json::from_slice::<serde_json::Value>(raw) {
        Ok(value) => Ok(plain_value(value)),
        Err(error) => Err(error.to_string()),
    }
}

/// Moves a `serde_json::Value` into a value of this crate, variant by variant.
/// Nothing is stated of the result, since the argument is opaque.
#[verifier::external_body]
fn plain_value(value: serde_json::Value) -> Json {
    match value {
        Value::Null => Json::Null,
        Value::Bool(value) => Json::Bool(value),
        Value::Number(n) => {
            let (unsigned, signed) = (n.as_u64(), n.as_i64());
            Json::Number(JsonNumber { unsigned, signed, text: n.to_string() })
        },
        Value::String(value) => Json::Text(value),
        Value::Array(values) => Json::Array(values.into_iter().map(plain_value).collect()),
        Value::Object(members) => Json::Object(
            members.into_iter().map(|(name, v)| JsonMember { name, value: plain_value(v) }).collect(),
        ),
    }
}

/// `serde_json::to_string` of a string: the string in quotes, where quotes, backslashes and
/// the control characters below the space are escaped, with a letter where there is one and
/// with two hexadecimal digits otherwise. Writing a string to a string does not fail.
#[verifier::external_body]
pub(crate) fn quote(text: &str) -> (r: String)
    ensures
        r@ == json_quoted(text@),
{
    serde_json::to_string(text).unwrap_or_default()
}

/// Reads one JSON document.
pub fn parse(raw: &[u8]) -> (r: Result<Json, String>)
    ensures
        match r {
            Ok(value) => json_document(raw@) == Ok::<JsonModel, Seq<char>>(value.model()),
            Err(message) => json_document(raw@) == Err::<JsonModel, Seq<char>>(message@),
        },
{
    read_document(raw)
}

/// An optional value by what it says.
pub open spec fn model_of(value: Option<&Json>) -> Option<JsonModel> {
    match value {
        Some(value) => Some(value.model()),
        None => None,
    }
}

/// An optional string by its characters.
pub open spec fn text_of(value: Option<&str>) -> Option<Seq<char>> {
    match value {
        Some(value) => Some(value@),
        None => None,
    }
}

impl Json {
    /// The member of an object with the given name.
    pub fn get(&self, name: &str) -> (r: Option<&Json>)
        ensures
            model_of(r) == self.model().member(name@),
    {
        match self {
            Json::Object(members) => {
                let ghost all = member_models(members@);
                assert(self.model() == JsonModel::Object(all)) by {
                    assert(all =~= self.model()->Object_0);
                }
                let mut i: usize = 0;
                while i < members.len()
                    invariant
                        i <= members@.len(),
                        all == member_models(members@),
                        self.model() == JsonModel::Object(all),
                        member_from(all, name@, 0) == member_from(all, name@, i as int),
                    decreases members@.len() - i,
                {
                    if text::same_text(members[i].name.as_str(), name) {
                        return Some(&members[i].value);
                    }
                    i += 1;
                }
                None
            },
            _ => None,
        }
    }

    pub fn as_str(&self) -> (r: Option<&str>)
        ensures
            text_of(r) == self.model().text(),
    {
        match self {
            Json::Text(s) => Some(s.as_str()),
            _ => None,
        }
    }

    pub fn as_bool(&self) -> (r: Option<bool>)
        ensures
            r == self.model().boolean(),
    {
        match self {
            Json::Bool(b) => Some(*b),
            _ => None,
        }
    }

    pub fn as_u64(&self) -> (r: Option<u64>)
        ensures
            r == self.model().unsigned(),
    {
        match self {
            Json::Number(n) => n.unsigned,
            _ => None,
        }
    }

    pub fn as_i64(&self) -> (r: Option<i64>)
        ensures
            r == self.model().signed(),
    {
        match self {
            Json::Number(n) => n.signed,
            _ => None,
        }
    }

    pub fn as_array(&self) -> (r: Option<&Vec<Json>>)
        ensures
            match r {
                Some(items) => self.model() == JsonModel::Array(models(items@)),
                None => !(self.model() is Array),
            },
    {
        match self {
            Json::Array(items) => {
                assert(models(items@) =~= self.model()->Array_0);
                Some(items)
            },
            _ => None,
        }
    }

    pub fn get_str(&self, name: &str) -> (r: Option<&str>)
        ensures
            text_of(r) == self.model().member_text(name@),
    {
        match self.get(name) {
            Some(value) => value.as_str(),
            None => None,
        }
    }

    pub fn get_bool(&self, name: &str) -> (r: Option<bool>)
        ensures
            r == self.model().member_boolean(name@),
    {
        match self.get(name) {
            Some(value) => value.as_bool(),
            None => None,
        }
    }

    pub fn get_u64(&self, name: &str) -> (r: Option<u64>)
        ensures
            r == self.model().member_unsigned(name@),
    {
        match self.get(name) {
            Some(value) => value.as_u64(),
            None => None,
        }
    }

    /// The array under a name.
    pub fn get_array(&self, name: &str) -> (r: Option<&Vec<Json>>)
        ensures
            match r {
                Some(items) => self.model().member(name@) == Some(
                    JsonModel::Array(models(items@)),
                ) && self.model().member_items(name@) == models(items@),
                None => !(self.model().member(name@) matches Some(JsonModel::Array(_)))
                    && self.model().member_items(name@) == Seq::<JsonModel>::empty(),
            },
    {
        match self.get(name) {
            Some(value) => value.as_array(),
            None => None,
        }
    }

    /// Writes the value as compact JSON behind `out`.
    pub fn write(&self, out: &mut Vec<char>)
        ensures
            final(out)@ == old(out)@ + written(self.model()),
        decreases self,
    {
        match self {
            Json::Null => text::append(out, text::to_chars("null").as_slice()),
            Json::Bool(b) => {
                if *b {
                    text::append(out, text::to_chars("true").as_slice());
                } else {
                    text::append(out, text::to_chars("false").as_slice());
                }
            },
            Json::Number(n) => text::append(out, text::to_chars(n.text.as_str()).as_slice()),
            Json::Text(s) => text::append(out, text::to_chars(quote(s.as_str()).as_str()).as_slice()),
            Json::Array(items) => {
                let ghost all = models(items@);
                assert(self.model() == JsonModel::Array(all)) by {
                    assert(all =~= self.model()->Array_0);
                }
                let ghost start = out@;
                out.push('[');
                let mut i: usize = 0;
                while i < items.len()
                    invariant
                        i <= items@.len(),
                        all == models(items@),
                        self == Json::Array(*items),
                        start + seq!['['] + written_items(all, 0) =~= out@ + written_items(
                            all,
                            i as int,
                        ),
                    decreases items@.len() - i,
                {
                    if i > 0 {
                        out.push(',');
                    }
                    assert(decreases_to!(self => self->Array_0));
                    assert(decreases_to!(self->Array_0 => items@));
                    assert(decreases_to!(items@ => items@[i as int]));
                    items[i].write(out);
                    i += 1;
                }
                out.push(']');
                assert(out@ =~= start + written(self.model()));
            },
            Json::Object(members) => {
                let ghost all = member_models(members@);
                assert(self.model() == JsonModel::Object(all)) by {
                    assert(all =~= self.model()->Object_0);
                }
                let ghost start = out@;
                out.push('{');
                let mut i: usize = 0;
                while i < members.len()
                    invariant
                        i <= members@.len(),
                        all == member_models(members@),
                        self == Json::Object(*members),
                        start + seq!['{'] + written_members(all, 0) =~= out@ + written_members(
                            all,
                            i as int,
                        ),
                    decreases members@.len() - i,
                {
                    if i > 0 {
                        out.push(',');
                    }
                    text::append(
                        out,
                        text::to_chars(quote(members[i].name.as_str()).as_str()).as_slice(),
                    );
                    out.push(':');
                    assert(decreases_to!(self => self->Object_0));
                    assert(decreases_to!(self->Object_0 => members@));
                    assert(decreases_to!(members@ => members@[i as int]));
                    assert(decreases_to!(members@[i as int] => members@[i as int].value));
                    members[i].value.write(out);
                    i += 1;
                }
                out.push('}');
                assert(out@ =~= start + written(self.model()));
            },
        }
    }

    /// The value as compact JSON.
    pub fn to_text(&self) -> (r: String)
        ensures
            r@ == written(self.model()),
    {
        let mut out: Vec<char> = Vec::new();
        self.write(&mut out);
        assert(out@ =~= written(self.model()));
        text::to_text(out.as_slice())
    }
}

/// What can be written as JSON.
pub trait ToJson: DeepView {
    spec fn json(value: Self::V) -> JsonModel;

    fn to_json(&self) -> (r: Json)
        ensures
            r.model() == Self::json(self.deep_view()),
    ;
}

/// The texts of a list as an array.
pub open spec fn text_array(texts: Seq<Seq<char>>) -> JsonModel {
    JsonModel::Array(Seq::new(texts.len(), |i: int| JsonModel::Text(texts[i])))
}

/// The items of a list as an array.
pub open spec fn item_array<T: ToJson>(items: Seq<T::V>) -> JsonModel {
    JsonModel::Array(Seq::new(items.len(), |i: int| T::json(items[i])))
}

/// A text as a value.
pub fn of_text(s: &str) -> (r: Json)
    ensures
        r.model() == JsonModel::Text(s@),
{
    Json::Text(text::copy(s))
}

/// A number that counts something as a value.
pub fn of_count(n: u64) -> (r: Json)
    ensures
        r.model() == count_model(n as nat),
{
    let digits = text::format_number(n);
    let signed = if n <= i64::MAX as u64 {
        Some(n as i64)
    } else {
        None
    };
    Json::Number(
        JsonNumber { unsigned: Some(n), signed, text: text::to_text(digits.as_slice()) },
    )
}

/// Values as an array.
pub fn of_values(items: Vec<Json>) -> (r: Json)
    ensures
        r.model() == JsonModel::Array(models(items@)),
{
    let value = Json::Array(items);
    assert(models(items@) =~= value.model()->Array_0);
    value
}

/// Members as an object.
pub fn of_members(members: Vec<JsonMember>) -> (r: Json)
    ensures
        r.model() == JsonModel::Object(member_models(members@)),
{
    let value = Json::Object(members);
    assert(member_models(members@) =~= value.model()->Object_0);
    value
}

/// Adds a member to those of an object.
pub fn put(members: &mut Vec<JsonMember>, name: &str, value: Json)
    ensures
        member_models(final(members)@) == member_models(old(members)@).push((name@, value.model())),
{
    members.push(JsonMember { name: text::copy(name), value });
    assert(member_models(members@) =~= member_models(old(members)@).push((name@, value.model())));
}

/// The texts of a list as an array.
pub fn of_texts(list: &Vec<String>) -> (r: Json)
    ensures
        r.model() == text_array(list.deep_view()),
{
    let ghost all = list.deep_view();
    let mut items: Vec<Json> = Vec::new();
    let mut i: usize = 0;
    while i < list.len()
        invariant
            i <= list@.len(),
            all == list.deep_view(),
            items@.len() == i,
            forall|k: int| 0 <= k < i ==> (#[trigger] items@[k]).model() == JsonModel::Text(all[k]),
        decreases list@.len() - i,
    {
        items.push(of_text(list[i].as_str()));
        i += 1;
    }
    assert(models(items@) =~= text_array(all)->Array_0);
    of_values(items)
}

/// The items of a list as an array.
pub fn of_items<T: ToJson>(list: &Vec<T>) -> (r: Json)
    ensures
        r.model() == item_array::<T>(list.deep_view()),
{
    let ghost all = list.deep_view();
    let mut items: Vec<Json> = Vec::new();
    let mut i: usize = 0;
    while i < list.len()
        invariant
            i <= list@.len(),
            all == list.deep_view(),
            items@.len() == i,
            forall|k: int| 0 <= k < i ==> (#[trigger] items@[k]).model() == T::json(all[k]),
        decreases list@.len() - i,
    {
        items.push(list[i].to_json());
        i += 1;
    }
    assert(models(items@) =~= item_array::<T>(all)->Array_0);
    of_values(items)
}

/// How many bytes the values of the members from `i` on take.
pub open spec fn value_bytes_from(members: Seq<(Seq<char>, JsonModel)>, i: int) -> nat
    decreases members.len() - i,
{
    if i < 0 || i >= members.len() {
        0
    } else {
        text::byte_len(written(members[i].1)) + value_bytes_from(members, i + 1)
    }
}

proof fn members_differ_by_values(
    a: Seq<(Seq<char>, JsonModel)>,
    b: Seq<(Seq<char>, JsonModel)>,
    i: int,
)
    requires
        0 <= i,
        a.len() == b.len(),
        forall|k: int| 0 <= k < a.len() ==> (#[trigger] a[k]).0 == b[k].0,
    ensures
        text::byte_len(written_members(a, i)) + value_bytes_from(b, i) == text::byte_len(
            written_members(b, i),
        ) + value_bytes_from(a, i),
    decreases a.len() - i,
{
    if i < a.len() {
        members_differ_by_values(a, b, i + 1);
        assert(a[i].0 == b[i].0);
        let head = (if i > 0 {
            seq![',']
        } else {
            seq![]
        }) + json_quoted(a[i].0) + seq![':'];
        let later = written_members(a, i + 1);
        text::bytes_of_joined_texts(head, written(a[i].1));
        text::bytes_of_joined_texts(head + written(a[i].1), later);
        assert(written_members(a, i) =~= head + written(a[i].1) + later);
        let later = written_members(b, i + 1);
        text::bytes_of_joined_texts(head, written(b[i].1));
        text::bytes_of_joined_texts(head + written(b[i].1), later);
        assert(written_members(b, i) =~= head + written(b[i].1) + later);
    }
}

proof fn framed_bytes(open: Seq<char>, inside: Seq<char>, close: Seq<char>)
    ensures
        text::byte_len(open + inside + close) == text::byte_len(open) + text::byte_len(inside)
            + text::byte_len(close),
{
    text::bytes_of_joined_texts(open, inside);
    text::bytes_of_joined_texts(open + inside, close);
}

/// Two objects whose members have the same names differ in size as the values do.
pub proof fn objects_differ_by_values(
    a: Seq<(Seq<char>, JsonModel)>,
    b: Seq<(Seq<char>, JsonModel)>,
)
    requires
        a.len() == b.len(),
        forall|k: int| 0 <= k < a.len() ==> (#[trigger] a[k]).0 == b[k].0,
    ensures
        text::byte_len(written(JsonModel::Object(a))) + value_bytes_from(b, 0) == text::byte_len(
            written(JsonModel::Object(b)),
        ) + value_bytes_from(a, 0),
{
    members_differ_by_values(a, b, 0);
    framed_bytes(seq!['{'], written_members(a, 0), seq!['}']);
    framed_bytes(seq!['{'], written_members(b, 0), seq!['}']);
}

proof fn last_item_is_written_last(items: Seq<JsonModel>, last: JsonModel, i: int)
    requires
        0 <= i <= items.len(),
    ensures
        written_items(items.push(last), i) == written_items(items, i) + (if items.len() > 0 {
            seq![',']
        } else {
            seq![]
        }) + written(last),
    decreases items.len() - i,
{
    let all = items.push(last);
    if i < items.len() {
        last_item_is_written_last(items, last, i + 1);
        assert(all[i] == items[i]);
        assert(written_items(all, i) =~= written_items(items, i) + seq![','] + written(last));
    } else {
        assert(all[i] == last);
        assert(written_items(all, i + 1) =~= seq![]);
        assert(written_items(items, i) =~= seq![]);
        assert(written_items(all, i) =~= written_items(items, i) + (if items.len() > 0 {
            seq![',']
        } else {
            seq![]
        }) + written(last));
    }
}

/// An array with an item more takes more bytes, as many as the item at least.
pub proof fn arrays_grow(items: Seq<JsonModel>, last: JsonModel)
    ensures
        text::byte_len(written(JsonModel::Array(items.push(last)))) >= text::byte_len(
            written(JsonModel::Array(items)),
        ) + text::byte_len(written(last)),
{
    last_item_is_written_last(items, last, 0);
    let comma = if items.len() > 0 {
        seq![',']
    } else {
        seq![]
    };
    framed_bytes(written_items(items, 0), comma, written(last));
    framed_bytes(seq!['['], written_items(items, 0), seq![']']);
    framed_bytes(seq!['['], written_items(items.push(last), 0), seq![']']);
}

proof fn members_take_bytes(members: Seq<(Seq<char>, JsonModel)>, i: int)
    requires
        0 <= i <= members.len(),
    ensures
        text::byte_len(written_members(members, i)) >= 3 * (members.len() - i),
    decreases members.len() - i,
{
    if i < members.len() {
        members_take_bytes(members, i + 1);
        let comma = if i > 0 {
            seq![',']
        } else {
            seq![]
        };
        let name = json_quoted(members[i].0);
        let value = written(members[i].1);
        framed_bytes(seq!['"'], escaped_from(members[i].0, 0), seq!['"']);
        text::texts_have_bytes(seq!['"']);
        text::texts_have_bytes(seq![':']);
        framed_bytes(comma, name, seq![':']);
        framed_bytes(comma + name + seq![':'], value, written_members(members, i + 1));
    }
}

/// An object takes two bytes at least, and three more for each of its members.
pub proof fn objects_take_bytes(members: Seq<(Seq<char>, JsonModel)>)
    ensures
        text::byte_len(written(JsonModel::Object(members))) >= 2 + 3 * members.len(),
{
    members_take_bytes(members, 0);
    framed_bytes(seq!['{'], written_members(members, 0), seq!['}']);
    text::texts_have_bytes(seq!['{']);
    text::texts_have_bytes(seq!['}']);
}

proof fn plain_texts_are_not_escaped(text: Seq<char>, i: int)
    requires
        0 <= i <= text.len(),
        forall|k: int|
            0 <= k < text.len() ==> (#[trigger] text[k]) >= ' ' && text[k] != '"' && text[k]
                != '\\',
    ensures
        escaped_from(text, i) == text.skip(i),
    decreases text.len() - i,
{
    if i < text.len() {
        plain_texts_are_not_escaped(text, i + 1);
        assert(text[i] >= ' ');
        assert(escaped_char(text[i]) == seq![text[i]]);
        assert(text.skip(i) =~= seq![text[i]] + text.skip(i + 1));
    } else {
        assert(text.skip(i) =~= seq![]);
    }
}

/// A text of plain ASCII characters takes as many bytes as it has, and two for its quotes.
pub proof fn plain_texts_take_bytes(text: Seq<char>)
    requires
        vstd::utf8::is_ascii_chars(text),
        forall|k: int|
            0 <= k < text.len() ==> (#[trigger] text[k]) >= ' ' && text[k] != '"' && text[k]
                != '\\',
    ensures
        text::byte_len(json_quoted(text)) == text.len() + 2,
{
    plain_texts_are_not_escaped(text, 0);
    assert(text.skip(0) =~= text);
    let whole = json_quoted(text);
    assert(vstd::utf8::is_ascii_chars(whole));
    text::short_ascii_is_kept(whole, whole.len());
}

} // verus!
