//! The events of an XML document, from the `quick_xml` crate.
use quick_xml::events::{BytesStart, Event};
use quick_xml::Reader;
use vstd::prelude::*;
use vstd::utf8::{decode_utf8, encode_utf8, valid_utf8};

verus! {

/// An attribute of a tag: its name and its value, as the document has them.
pub type XmlAttribute = (Vec<u8>, String);

/// What stands next in a document.
pub enum XmlEvent {
    /// The beginning of an element: its name and its attributes.
    Start(Vec<u8>, Vec<XmlAttribute>),
    /// An element without content.
    Empty(Vec<u8>, Vec<XmlAttribute>),
    /// The end of an element: its name.
    End(Vec<u8>),
    /// Text, with its entities as they stand.
    Text(String),
    /// Text of a section without markup.
    CData(String),
    /// A comment, a declaration or the like.
    Other,
    /// What is wrong with the document.
    Failed(String),
    /// The end of the document.
    Eof,
}

/// The values of an event.
pub enum XmlEventView {
    Start(Seq<u8>, Seq<(Seq<u8>, Seq<char>)>),
    Empty(Seq<u8>, Seq<(Seq<u8>, Seq<char>)>),
    End(Seq<u8>),
    Text(Seq<char>),
    CData(Seq<char>),
    Other,
    Failed(Seq<char>),
    Eof,
}

/// The values of attributes.
pub open spec fn attributes_view(attributes: Seq<XmlAttribute>) -> Seq<(Seq<u8>, Seq<char>)> {
    attributes.map_values(|a: XmlAttribute| (a.0@, a.1@))
}

impl View for XmlEvent {
    type V = XmlEventView;

    open spec fn view(&self) -> XmlEventView {
        match self {
            XmlEvent::Start(name, attributes) => XmlEventView::Start(
                name@,
                attributes_view(attributes@),
            ),
            XmlEvent::Empty(name, attributes) => XmlEventView::Empty(
                name@,
                attributes_view(attributes@),
            ),
            XmlEvent::End(name) => XmlEventView::End(name@),
            XmlEvent::Text(text) => XmlEventView::Text(text@),
            XmlEvent::CData(text) => XmlEventView::CData(text@),
            XmlEvent::Other => XmlEventView::Other,
            XmlEvent::Failed(text) => XmlEventView::Failed(text@),
            XmlEvent::Eof => XmlEventView::Eof,
        }
    }
}

/// What the reader hands out: the bytes of a tag with the length of its name, or of a text.
pub enum RawEvent {
    Start(Vec<u8>, usize),
    Empty(Vec<u8>, usize),
    End(Vec<u8>),
    Text(Vec<u8>),
    CData(Vec<u8>),
    Other,
    Failed(String),
    Eof,
}

/// The values of what the reader hands out.
pub enum RawEventView {
    Start(Seq<u8>, usize),
    Empty(Seq<u8>, usize),
    End(Seq<u8>),
    Text(Seq<u8>),
    CData(Seq<u8>),
    Other,
    Failed(Seq<char>),
    Eof,
}

impl View for RawEvent {
    type V = RawEventView;

    open spec fn view(&self) -> RawEventView {
        match self {
            RawEvent::Start(tag, name_len) => RawEventView::Start(tag@, *name_len),
            RawEvent::Empty(tag, name_len) => RawEventView::Empty(tag@, *name_len),
            RawEvent::End(name) => RawEventView::End(name@),
            RawEvent::Text(text) => RawEventView::Text(text@),
            RawEvent::CData(text) => RawEventView::CData(text@),
            RawEvent::Other => RawEventView::Other,
            RawEvent::Failed(text) => RawEventView::Failed(text@),
            RawEvent::Eof => RawEventView::Eof,
        }
    }
}

/// The reader of `quick_xml`.
#[verifier::external_type_specification]
#[verifier::external_body]
#[verifier::reject_recursive_types(R)]
pub struct ExReader<R>(quick_xml::Reader<R>);

/// What a reader has before it, without the end of the document.
pub uninterp spec fn pending_events(reader: quick_xml::Reader<&[u8]>) -> Seq<RawEventView>;

/// What a reader hands out of a document, without its end.
pub uninterp spec fn document_events(xml: Seq<char>, trim: bool) -> Seq<RawEventView>;

/// `Reader::from_str` and `Config::trim_text`: a reader at the beginning of the
/// document. What it will read depends on the text and the setting alone. Every event
/// takes at least one byte of the document, so there are no more events than bytes.
#[verifier::external_body]
pub(crate) fn open_document(xml: &str, trim: bool) -> (r: quick_xml::Reader<&[u8]>)
    ensures
        pending_events(r) == document_events(xml@, trim),
        pending_events(r).len() <= xml.len(),
{
    let mut reader = Reader::from_str(xml);
    reader.config_mut().trim_text(trim);
    reader
}

/// `Reader::read_event_into`: the next event, with its bytes as they stand in the
/// document. The name of a tag is no longer than the tag. Behind the last event stands
/// the end of the document, over and over.
#[verifier::external_body]
pub(crate) fn next_event(reader: &mut quick_xml::Reader<&[u8]>) -> (r: RawEvent)
    ensures
        pending_events(*old(reader)).len() > 0 ==> r@ == pending_events(*old(reader))[0]
            && pending_events(*final(reader)) == pending_events(*old(reader)).skip(1),
        pending_events(*old(reader)).len() == 0 ==> r@ == RawEventView::Eof && pending_events(
            *final(reader),
        ) == pending_events(*old(reader)),
        r matches RawEvent::Start(tag, name_len) ==> name_len <= tag@.len(),
        r matches RawEvent::Empty(tag, name_len) ==> name_len <= tag@.len(),
{
    match reader.read_event_into(&mut Vec::new()) {
        Ok(Event::Start(e)) => RawEvent::Start(e.to_vec(), e.name().0.len()),
        Ok(Event::Empty(e)) => RawEvent::Empty(e.to_vec(), e.name().0.len()),
        Ok(Event::End(e)) => RawEvent::End(e.to_vec()),
        Ok(Event::Text(e)) => RawEvent::Text(e.to_vec()),
        Ok(Event::CData(e)) => RawEvent::CData(e.to_vec()),
        Ok(Event::Eof) => RawEvent::Eof,
        Ok(_) => RawEvent::Other,
        Err(e) => RawEvent::Failed(e.to_string()),
    }
}

/// The attributes of a tag, behind its name of so many bytes.
pub uninterp spec fn attributes_in(tag: Seq<char>, name_len: usize) -> Seq<(Seq<u8>, Seq<char>)>;

/// `BytesStart::from_content` and `BytesStart::attributes`, read without checks and
/// without its errors, each value with `String::from_utf8_lossy`: a function of the tag
/// and the length of its name.
#[verifier::external_body]
fn tag_attributes(tag: &str, name_len: usize) -> (r: Vec<XmlAttribute>)
    requires
        name_len <= encode_utf8(tag@).len(),
    ensures
        attributes_view(r@) == attributes_in(tag@, name_len),
{
    let tag = BytesStart::from_content(tag, name_len);
    let mut all = tag.attributes();
    let pairs = all.with_checks(false).flatten();
    pairs.map(|a| (a.key.0.to_vec(), String::from_utf8_lossy(&a.value).into_owned())).collect()
}

/// What `String::from_utf8_lossy` makes of bytes.
pub uninterp spec fn lossy_utf8(bytes: Seq<u8>) -> Seq<char>;

/// `String::from_utf8_lossy`: a function of the bytes, and their text where they are
/// valid UTF-8.
#[verifier::external_body]
fn lossy_text(bytes: &[u8]) -> (r: String)
    ensures
        r@ == lossy_utf8(bytes@),
        valid_utf8(bytes@) ==> r@ == decode_utf8(bytes@),
{
    String::from_utf8_lossy(bytes).into_owned()
}

/// The attributes of a tag, where its name lies within it.
pub open spec fn attributes_of(tag: Seq<u8>, name_len: usize) -> Seq<(Seq<u8>, Seq<char>)> {
    if name_len <= encode_utf8(lossy_utf8(tag)).len() {
        attributes_in(lossy_utf8(tag), name_len)
    } else {
        Seq::empty()
    }
}

/// What an event that the reader handed out says.
pub open spec fn event_of(raw: RawEventView) -> XmlEventView {
    match raw {
        RawEventView::Start(tag, name_len) => XmlEventView::Start(
            tag.take(name_len as int),
            attributes_of(tag, name_len),
        ),
        RawEventView::Empty(tag, name_len) => XmlEventView::Empty(
            tag.take(name_len as int),
            attributes_of(tag, name_len),
        ),
        RawEventView::End(name) => XmlEventView::End(name),
        RawEventView::Text(text) => XmlEventView::Text(lossy_utf8(text)),
        RawEventView::CData(text) => XmlEventView::CData(lossy_utf8(text)),
        RawEventView::Other => XmlEventView::Other,
        RawEventView::Failed(message) => XmlEventView::Failed(message),
        RawEventView::Eof => XmlEventView::Eof,
    }
}

/// What the events that the reader handed out say.
pub open spec fn events_of(raw: Seq<RawEventView>) -> Seq<XmlEventView> {
    raw.map_values(|e: RawEventView| event_of(e))
}

/// The name and the attributes of a tag.
fn read_tag(tag: Vec<u8>, name_len: usize) -> (r: (Vec<u8>, Vec<XmlAttribute>))
    requires
        name_len <= tag@.len(),
    ensures
        r.0@ == tag@.take(name_len as int),
        attributes_view(r.1@) == attributes_of(tag@, name_len),
{
    let text = lossy_text(&tag);
    let attributes = if name_len <= text.as_str().as_bytes().len() {
        tag_attributes(text.as_str(), name_len)
    } else {
        let none: Vec<XmlAttribute> = Vec::new();
        proof {
            assert(attributes_view(none@) =~= Seq::empty());
        }
        none
    };
    let mut name = tag;
    name.truncate(name_len);
    proof {
        assert(name@ =~= tag@.take(name_len as int));
    }
    (name, attributes)
}

/// What an event that the reader handed out says.
pub(crate) fn read_event(raw: RawEvent) -> (r: XmlEvent)
    requires
        raw matches RawEvent::Start(tag, name_len) ==> name_len <= tag@.len(),
        raw matches RawEvent::Empty(tag, name_len) ==> name_len <= tag@.len(),
    ensures
        r@ == event_of(raw@),
{
    match raw {
        RawEvent::Start(tag, name_len) => {
            let (name, attributes) = read_tag(tag, name_len);
            XmlEvent::Start(name, attributes)
        },
        RawEvent::Empty(tag, name_len) => {
            let (name, attributes) = read_tag(tag, name_len);
            XmlEvent::Empty(name, attributes)
        },
        RawEvent::End(name) => XmlEvent::End(name),
        RawEvent::Text(text) => XmlEvent::Text(lossy_text(&text)),
        RawEvent::CData(text) => XmlEvent::CData(lossy_text(&text)),
        RawEvent::Other => XmlEvent::Other,
        RawEvent::Failed(message) => XmlEvent::Failed(message),
        RawEvent::Eof => XmlEvent::Eof,
    }
}

} // verus!
