//! Events of a markup (XML) document, reduced to what the station scanner
//! reads: opening, self-closing and closing tags, with names and attributes
//! as plain bytes.  The streaming of the document itself is done by an
//! outside parser behind trusted wrappers.

use vstd::prelude::*;
use quick_xml::events::BytesEnd;
use quick_xml::events::BytesStart;
use quick_xml::events::Event as Ev;
use quick_xml::Reader;

verus! {

/// One attribute of a markup element.
pub struct MarkupAttr {
    /// The attribute's name.
    pub key: Vec<u8>,
    /// The attribute's raw value.
    pub value: Vec<u8>,
}

/// One event of a markup document.
pub enum MarkupEvent {
    /// An opening tag with its attributes.
    Open { name: Vec<u8>, attrs: Vec<MarkupAttr> },
    /// A self-closing tag: an opening immediately followed by a closing.
    SelfClosed { name: Vec<u8>, attrs: Vec<MarkupAttr> },
    /// A closing tag.
    Close { name: Vec<u8> },
    /// Any other content: text, comments, declarations and the like.
    Other,
}

#[verifier::external_type_specification]
#[verifier::external_body]
pub struct ExBytesStart<'a>(BytesStart<'a>);

#[verifier::external_type_specification]
#[verifier::external_body]
pub struct ExBytesEnd<'a>(BytesEnd<'a>);

/// Relies on quick_xml's `BytesEnd::name`: the closed tag's name, as bytes.
#[verifier::external_body]
fn end_name_of(e: &BytesEnd) -> Vec<u8> {
    e.name().as_ref().as_bytes().to_vec()
}

/// Relies on quick_xml's `BytesStart::name`: the tag's name, as bytes.
#[verifier::external_body]
fn name_of(e: &BytesStart) -> Vec<u8> {
    e.name().as_ref().as_bytes().to_vec()
}

/// Relies on quick_xml's `BytesStart::attributes`: the tag's attributes, in
/// document order; attributes the parser rejects (duplicates) are dropped.
#[verifier::external_body]
fn attrs_of(e: &BytesStart) -> Vec<MarkupAttr> {
    e.attributes().flatten().map(
        |a| MarkupAttr { key: a.key.as_ref().as_bytes().to_vec(), value: a.value.as_bytes().to_vec() },
    ).collect()
}

/// The event stream a markup document denotes, or `None` when the document
/// is malformed.  This names the result of the outside parser, which is a
/// function of the document bytes alone.
pub uninterp spec fn markup_events_of(xml: Seq<u8>) -> Option<Seq<MarkupEvent>>;

/// Reads the events of a markup document.
///
/// Relies on quick_xml's `Reader::read_event_into`: opening, self-closing
/// and closing tags become the corresponding event carrying the tag's name
/// and attributes; all other content becomes one `Other` event; `Err` comes
/// exactly on the documents the parser rejects, with its diagnostic.
#[verifier::external_body]
pub fn read_markup_events(xml: &[u8]) -> (r: Result<Vec<MarkupEvent>, String>)
    ensures
        match r {
            Ok(events) => markup_events_of(xml@) == Some(events@),
            Err(_) => markup_events_of(xml@) is None,
        },
{
    let mut rd = Reader::from_reader(xml);
    let mut buf = Vec::new();
    let mut out = Vec::new();
    loop {
        match rd.read_event_into(&mut buf) {
            Ok(Ev::Start(e)) => out.push(MarkupEvent::Open { name: name_of(&e), attrs: attrs_of(&e) }),
            Ok(Ev::Empty(e)) => out.push(MarkupEvent::SelfClosed { name: name_of(&e), attrs: attrs_of(&e) }),
            Ok(Ev::End(e)) => out.push(MarkupEvent::Close { name: end_name_of(&e) }),
            Ok(Ev::Eof) => return Ok(out),
            Ok(_) => out.push(MarkupEvent::Other),
            Err(e) => return Err(e.to_string()),
        }
    }
}

} // verus!
