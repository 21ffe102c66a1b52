//! XML documents as the events that a reader meets.

pub mod laws;

use vstd::prelude::*;
use crate::list;
use crate::text;

verus! {

#[derive(Debug, PartialEq, Eq)]
pub struct XmlAttribute {
    pub key: Vec<u8>,
    /// The unescaped value, where it can be unescaped.
    pub value: Option<String>,
}

#[derive(Debug, PartialEq, Eq)]
pub struct XmlElement {
    pub name: Vec<u8>,
    /// The attributes in their order; `None` where one could not be read.
    pub attributes: Vec<Option<XmlAttribute>>,
}

#[derive(Debug, PartialEq, Eq)]
pub struct XmlText {
    /// The unescaped text, where it can be unescaped.
    pub unescaped: Option<String>,
    pub raw: Vec<u8>,
}

#[derive(Debug, PartialEq, Eq)]
pub enum XmlEvent {
    Start(XmlElement),
    Empty(XmlElement),
    Text(XmlText),
    End(Vec<u8>),
    Other,
    Eof,
    Failed(String),
}

pub struct XmlElementModel {
    pub name: Seq<u8>,
    pub attributes: Seq<Option<(Seq<u8>, Option<Seq<char>>)>>,
}

pub enum XmlEventModel {
    Start(XmlElementModel),
    Empty(XmlElementModel),
    Text(Option<Seq<char>>, Seq<u8>),
    End(Seq<u8>),
    Other,
    Eof,
    Failed(Seq<char>),
}

impl DeepView for XmlAttribute {
    type V = (Seq<u8>, Option<Seq<char>>);

    open spec fn deep_view(&self) -> (Seq<u8>, Option<Seq<char>>) {
        (self.key@, self.value.deep_view())
    }
}

impl DeepView for XmlElement {
    type V = XmlElementModel;

    open spec fn deep_view(&self) -> XmlElementModel {
        XmlElementModel { name: self.name@, attributes: self.attributes.deep_view() }
    }
}

impl DeepView for XmlEvent {
    type V = XmlEventModel;

    open spec fn deep_view(&self) -> XmlEventModel {
        match self {
            XmlEvent::Start(e) => XmlEventModel::Start(e.deep_view()),
            XmlEvent::Empty(e) => XmlEventModel::Empty(e.deep_view()),
            XmlEvent::Text(t) => XmlEventModel::Text(t.unescaped.deep_view(), t.raw@),
            XmlEvent::End(name) => XmlEventModel::End(name@),
            XmlEvent::Other => XmlEventModel::Other,
            XmlEvent::Eof => XmlEventModel::Eof,
            XmlEvent::Failed(message) => XmlEventModel::Failed(message@),
        }
    }
}

impl XmlEventModel {
    /// Nothing is read behind this event.
    pub open spec fn ends(self) -> bool {
        self is Eof || self is Failed
    }
}

/// `quick_xml::Reader`, which hands out the events of a document.
#[verifier::external_type_specification]
#[verifier::external_body]
#[verifier::reject_recursive_types(R)]
pub struct ExReader<R>(quick_xml::Reader<R>);

/// `quick_xml::events::BytesStart`, an opening tag.
#[verifier::external_type_specification]
#[verifier::external_body]
pub struct ExBytesStart<'a>(quick_xml::events::BytesStart<'a>);

/// The events of a document, up to and with the first end of file or error,
/// where text is trimmed.
pub uninterp spec fn xml_document(raw: Seq<u8>) -> Seq<XmlEventModel>;

/// The events that a reader has not handed out yet.
pub uninterp spec fn xml_remaining(reader: quick_xml::Reader<&[u8]>) -> Seq<XmlEventModel>;

/// The last event of a list ends it, and no other does.
pub open spec fn closed(events: Seq<XmlEventModel>) -> bool {
    &&& events.len() > 0
    &&& events.last().ends()
    &&& forall|i: int| 0 <= i < events.len() - 1 ==> !(#[trigger] events[i]).ends()
}

/// `quick_xml::Reader::from_reader` with `trim_text`: a reader at the start of
/// the document. Its events, up to the first end of file or error, are a
/// function of the bytes, named `xml_document`. Every event before the last one
/// takes a byte of the document at least.
#[verifier::external_body]
fn open_document(raw: &[u8]) -> (r: quick_xml::Reader<&[u8]>)
    ensures
        xml_remaining(r) == xml_document(raw@),
        closed(xml_remaining(r)),
        xml_remaining(r).len() <= raw@.len() + 1,
{
    let mut reader = quick_xml::Reader::from_reader(raw);
    reader.config_mut().trim_text(true);
    reader
}

/// `quick_xml::Reader::read_event_into`: hands out the next event, and leaves
/// the others.
#[verifier::external_body]
fn next_event(reader: &mut quick_xml::Reader<&[u8]>) -> (r: XmlEvent)
    requires
        xml_remaining(*old(reader)).len() > 0,
    ensures
        r.deep_view() == xml_remaining(*old(reader))[0],
        xml_remaining(*final(reader)) == xml_remaining(*old(reader)).skip(1),
{
    match reader.read_event_into(&mut Vec::new()) {
        Ok(quick_xml::events::Event::Start(tag)) => XmlEvent::Start(element_of(&tag)),
        Ok(quick_xml::events::Event::Empty(tag)) => XmlEvent::Empty(element_of(&tag)),
        Ok(quick_xml::events::Event::Text(text)) => XmlEvent::Text(
            XmlText { unescaped: text.unescape().ok().map(|t| t.into_owned()), raw: text.to_vec() },
        ),
        Ok(quick_xml::events::Event::End(tag)) => XmlEvent::End(tag.name().as_ref().to_vec()),
        Ok(quick_xml::events::Event::Eof) => XmlEvent::Eof,
        Ok(_) => XmlEvent::Other,
        Err(error) => XmlEvent::Failed(error.to_string()),
    }
}

/// Moves an opening tag into an element of this crate: its name and its
/// attributes, one for one. Nothing is stated of the result, since the
/// argument is opaque.
#[verifier::external_body]
fn element_of(tag: &quick_xml::events::BytesStart<'_>) -> XmlElement {
    XmlElement {
        name: tag.name().as_ref().to_vec(),
        attributes: tag.attributes().map(
            |attribute| attribute.ok().map(
                |a| XmlAttribute {
                    key: a.key.as_ref().to_vec(),
                    value: a.unescape_value().ok().map(|v| v.into_owned()),
                },
            ),
        ).collect(),
    }
}

/// Bytes spell an ASCII name.
pub open spec fn spells(raw: Seq<u8>, name: Seq<char>) -> bool {
    &&& raw.len() == name.len()
    &&& forall|i: int| 0 <= i < raw.len() ==> #[trigger] raw[i] as int == name[i] as int
}

/// The value of the first readable attribute with the given name, from `i` on.
pub open spec fn attribute_from(
    attributes: Seq<Option<(Seq<u8>, Option<Seq<char>>)>>,
    name: Seq<char>,
    i: int,
) -> Option<Seq<char>>
    decreases attributes.len() - i,
{
    if i < 0 || i >= attributes.len() {
        None
    } else {
        match attributes[i] {
            Some((key, value)) => if spells(key, name) {
                value
            } else {
                attribute_from(attributes, name, i + 1)
            },
            None => attribute_from(attributes, name, i + 1),
        }
    }
}

impl XmlElementModel {
    /// The value of the attribute with the given name.
    pub open spec fn attribute(self, name: Seq<char>) -> Option<Seq<char>> {
        attribute_from(self.attributes, name, 0)
    }
}

/// Bytes spell an ASCII name.
pub fn is_name(raw: &Vec<u8>, name: &str) -> (r: bool)
    ensures
        r == spells(raw@, name@),
{
    let letters = text::to_chars(name);
    if raw.len() != letters.len() {
        return false;
    }
    let mut i: usize = 0;
    while i < raw.len()
        invariant
            i <= raw@.len(),
            raw@.len() == letters@.len(),
            letters@ == name@,
            forall|k: int| 0 <= k < i ==> #[trigger] raw@[k] as int == name@[k] as int,
        decreases raw@.len() - i,
    {
        if raw[i] as char != letters[i] {
            return false;
        }
        i += 1;
    }
    true
}

impl XmlElement {
    /// The value of the attribute with the given name.
    pub fn attribute(&self, name: &str) -> (r: Option<String>)
        ensures
            r.deep_view() == self.deep_view().attribute(name@),
    {
        let ghost all = self.attributes.deep_view();
        let mut i: usize = 0;
        while i < self.attributes.len()
            invariant
                i <= self.attributes@.len(),
                all == self.attributes.deep_view(),
                attribute_from(all, name@, 0) == attribute_from(all, name@, i as int),
            decreases self.attributes@.len() - i,
        {
            assert(all[i as int] == self.attributes@[i as int].deep_view());
            match &self.attributes[i] {
                Some(attribute) => {
                    if is_name(&attribute.key, name) {
                        return text::copy_option(&attribute.value);
                    }
                },
                None => {},
            }
            i += 1;
        }
        None
    }
}

/// The events of a document, up to and with the first end of file or error.
pub fn read_document(raw: &[u8]) -> (r: Vec<XmlEvent>)
    ensures
        r.deep_view() == xml_document(raw@),
        closed(r.deep_view()),
        r@.len() <= raw@.len() + 1,
{
    let mut reader = open_document(raw);
    let ghost all = xml_remaining(reader);
    let mut events: Vec<XmlEvent> = Vec::new();
    loop
        invariant
            closed(all),
            all == xml_document(raw@),
            all.len() <= raw@.len() + 1,
            xml_remaining(reader).len() > 0,
            all =~= events.deep_view() + xml_remaining(reader),
        decreases xml_remaining(reader).len(),
    {
        let ghost index = events@.len() as int;
        let event = next_event(&mut reader);
        assert(event.deep_view() == all[index]);
        let done = match &event {
            XmlEvent::Eof => true,
            XmlEvent::Failed(_) => true,
            _ => false,
        };
        assert(done == event.deep_view().ends());
        list::push(&mut events, event);
        assert(all =~= events.deep_view() + xml_remaining(reader));
        if done {
            assert(index == all.len() - 1);
            assert(events.deep_view() =~= all);
            return events;
        }
    }
}

} // verus!
