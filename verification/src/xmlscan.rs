use vstd::prelude::*;

use quick_xml::events::Event;
use quick_xml::reader::Reader;

verus! {

/// The tag name of the first XML start or empty element in the text, if the
/// text has one before it ends or turns ill-formed.
pub uninterp spec fn spec_first_tag(xml: Seq<char>) -> Option<Seq<char>>;

/// The value of the named attribute on the first XML start or empty element
/// in the text, if that element is there and carries it.
pub uninterp spec fn spec_attr(xml: Seq<char>, name: Seq<char>) -> Option<Seq<char>>;

/// Relies on quick_xml's Reader: scans to the first start or empty element
/// and yields its tag name; yields nothing on empty input, at end of input,
/// or on ill-formed XML.
#[verifier::external_body]
pub(crate) fn first_tag(xml: &str) -> (r: Option<String>)
    ensures
        r is Some <==> spec_first_tag(xml@) is Some,
        r is Some ==> r.unwrap()@ == spec_first_tag(xml@).unwrap(),
        xml@.len() == 0 ==> r is None,
{
    let mut reader = Reader::from_str(xml);
    reader.config_mut().trim_text(true);
    loop {
        match reader.read_event() {
            Ok(Event::Start(e)) | Ok(Event::Empty(e)) => {
                let q = e.name();
                let n: &str = q.as_ref();
                return Some(n.to_owned());
            },
            Ok(Event::Eof) | Err(_) => return None,
            _ => {},
        }
    }
}

/// Relies on quick_xml's Reader and BytesStart::try_get_attribute: yields the
/// value of the named attribute on the first start or empty element, if any.
#[verifier::external_body]
pub(crate) fn extract_attr(xml: &str, name: &str) -> (r: Option<String>)
    ensures
        r is Some <==> spec_attr(xml@, name@) is Some,
        r is Some ==> r.unwrap()@ == spec_attr(xml@, name@).unwrap(),
        xml@.len() == 0 ==> r is None,
{
    let mut reader = Reader::from_str(xml);
    reader.config_mut().trim_text(true);
    loop {
        match reader.read_event() {
            Ok(Event::Start(e)) | Ok(Event::Empty(e)) => {
                return match e.try_get_attribute(name) {
                    Ok(Some(a)) => Some(a.value.into_owned()),
                    _ => None,
                };
            },
            Ok(Event::Eof) | Err(_) => return None,
            _ => {},
        }
    }
}

/// Relies on std's String::from_utf8: succeeds exactly on valid UTF-8 and
/// then yields the decoded characters.
#[verifier::external_body]
pub(crate) fn decode_utf8(bytes: &Vec<u8>) -> (r: Option<String>)
    ensures
        r is Some <==> vstd::utf8::valid_utf8(bytes@),
        r is Some ==> r.unwrap()@ == vstd::utf8::decode_utf8(bytes@),
{
    String::from_utf8(bytes.clone()).ok()
}

} // verus!
