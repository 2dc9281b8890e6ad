//! The XML event stream, as the headword scanner sees it.
use quick_xml::escape::unescape;
use quick_xml::events::Event::{End, Eof, Start, Text};
use quick_xml::Reader;
use vstd::prelude::*;

verus! {

#[verifier::external_type_specification]
#[verifier::external_body]
#[verifier::reject_recursive_types(R)]
pub struct ExReader<R>(quick_xml::Reader<R>);

/// One attribute of a start tag: its raw key and raw value.
pub struct XmlAttr {
    pub key: Vec<u8>,
    pub value: Vec<u8>,
}

/// One event of the XML stream, with its data held as plain values.
pub enum XmlEvent {
    /// A start tag, with its attributes in order; `None` stands for an
    /// attribute that could not be read.
    Start { name: Vec<u8>, attrs: Vec<Option<XmlAttr>> },
    /// An end tag.
    End { name: Vec<u8> },
    /// Character data, outer whitespace trimmed, entities not yet decoded.
    Text { raw: Vec<u8> },
    /// Any other event (empty element, comment, declaration, CDATA, ...).
    Other,
    /// The end of the document.
    Eof,
    /// The stream could not be read on (unterminated tag, bad nesting, ...).
    Malformed { message: String },
}

/// The mathematical model of an `XmlEvent`.
pub enum Token {
    Start(Seq<u8>, Seq<Option<(Seq<u8>, Seq<u8>)>>),
    End(Seq<u8>),
    Text(Seq<u8>),
    Other,
    Eof,
    Malformed(Seq<char>),
}

pub open spec fn attr_view(a: Option<XmlAttr>) -> Option<(Seq<u8>, Seq<u8>)> {
    match a {
        Some(x) => Some((x.key@, x.value@)),
        None => None,
    }
}

impl View for XmlEvent {
    type V = Token;

    open spec fn view(&self) -> Token {
        match self {
            XmlEvent::Start { name, attrs } => Token::Start(name@, attrs@.map_values(|a| attr_view(a))),
            XmlEvent::End { name } => Token::End(name@),
            XmlEvent::Text { raw } => Token::Text(raw@),
            XmlEvent::Other => Token::Other,
            XmlEvent::Eof => Token::Eof,
            XmlEvent::Malformed { message } => Token::Malformed(message@),
        }
    }
}

/// A token after which the stream yields nothing more.
pub open spec fn is_last_token(t: Token) -> bool {
    t is Eof || t is Malformed
}

/// A stream that ends with its first end-of-document or read error.
pub open spec fn token_stream_ok(ts: Seq<Token>) -> bool {
    &&& ts.len() > 0
    &&& is_last_token(ts.last())
    &&& forall|i: int| 0 <= i < ts.len() - 1 ==> !is_last_token(#[trigger] ts[i])
}

/// The events that a text-trimming reader yields for a document, up to and
/// including the first end-of-document or read error.
pub uninterp spec fn xml_tokens(doc: Seq<char>) -> Seq<Token>;

/// The events that a reader has yet to yield, up to and including the first
/// end-of-document or read error.
pub uninterp spec fn pending_tokens(r: Reader<&[u8]>) -> Seq<Token>;

/// Relies on `quick_xml::Reader::from_str` and `Reader::trim_text`: a reader
/// over the document that trims whitespace around character data; parsing
/// reaches the end of the input or stops at an error.
#[verifier::external_body]
pub(crate) fn open_reader(doc: &str) -> (r: Reader<&[u8]>)
    ensures
        pending_tokens(r) == xml_tokens(doc@),
        token_stream_ok(pending_tokens(r)),
{
    let mut reader = Reader::from_str(doc);
    reader.trim_text(true);
    reader
}

/// Relies on `quick_xml::Reader::read_event`: it yields the next event of
/// the stream.
#[verifier::external_body]
pub(crate) fn next_event(r: &mut Reader<&[u8]>) -> (e: XmlEvent)
    requires
        pending_tokens(*old(r)).len() > 0,
    ensures
        e@ == pending_tokens(*old(r))[0],
        pending_tokens(*final(r)) == pending_tokens(*old(r)).drop_first(),
{
    match r.read_event() {
        Ok(Start(s)) => XmlEvent::Start {
            name: s.name().0.to_vec(),
            attrs: s.attributes().map(|a| a.ok().map(|a| XmlAttr { key: a.key.0.to_vec(), value: a.value.to_vec() })).collect(),
        },
        Ok(End(e)) => XmlEvent::End { name: e.name().0.to_vec() },
        Ok(Text(t)) => XmlEvent::Text { raw: t.into_inner().into_owned() },
        Ok(Eof) => XmlEvent::Eof,
        Ok(_) => XmlEvent::Other,
        Err(err) => XmlEvent::Malformed { message: err.to_string() },
    }
}

/// The model of a decoded text, or of the reason it could not be decoded.
pub open spec fn text_view(r: Result<String, String>) -> Result<Seq<char>, Seq<char>> {
    match r {
        Ok(t) => Ok(t@),
        Err(m) => Err(m@),
    }
}

/// What decoding the raw character data `raw` gives: the text with its
/// entity and character references replaced, or an error message.
pub uninterp spec fn unescaped(raw: Seq<u8>) -> Result<Seq<char>, Seq<char>>;

/// Relies on `std::str::from_utf8` and `quick_xml::escape::unescape`: the
/// outcome depends on the bytes alone.
#[verifier::external_body]
pub(crate) fn unescape_text(raw: &Vec<u8>) -> (r: Result<String, String>)
    ensures
        text_view(r) == unescaped(raw@),
{
    match std::str::from_utf8(raw) {
        Ok(s) => unescape(s).map(|t| t.into_owned()).map_err(|e| e.to_string()),
        Err(e) => Err(e.to_string()),
    }
}

} // verus!
