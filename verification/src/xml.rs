//! XML events as plain values, read with `quick_xml`.
//!
//! The previews walk the event stream of an Office XML part. `quick_xml`
//! tokenises the text; each event is handed to the library as an `XmlEvent`
//! value, and the walkers that consume them are verified.
use vstd::prelude::*;

use quick_xml::events::Event;

verus! {

/// One attribute of a tag: its qualified name and raw (unescaped-not) value.
#[derive(Debug)]
pub struct XmlAttribute {
    pub key: Vec<u8>,
    pub value: Vec<u8>,
}

/// A start or empty tag: its qualified name and its attributes in document
/// order; an attribute that could not be read is `None`.
#[derive(Debug)]
pub struct XmlTag {
    pub name: Vec<u8>,
    pub attributes: Vec<Option<XmlAttribute>>,
}

/// One event of an XML document.
#[derive(Debug)]
pub enum XmlEvent {
    /// `<name ...>`
    Start(XmlTag),
    /// `<name .../>`
    Empty(XmlTag),
    /// `</name>`, with the qualified name.
    End(Vec<u8>),
    /// Character data between tags, unescaped; `None` when it could not be
    /// unescaped.
    Text(Option<String>),
    /// The end of the document.
    Eof,
    /// Comments, CDATA, declarations, processing instructions, doctypes.
    Other,
    /// The document is malformed; carries the parser's message.
    Fail(String),
}

pub struct XmlAttributeView {
    pub key: Seq<u8>,
    pub value: Seq<u8>,
}

pub struct XmlTagView {
    pub name: Seq<u8>,
    pub attributes: Seq<Option<XmlAttributeView>>,
}

pub enum XmlEventView {
    Start(XmlTagView),
    Empty(XmlTagView),
    End(Seq<u8>),
    Text(Option<Seq<char>>),
    Eof,
    Other,
    Fail(Seq<char>),
}

impl View for XmlAttribute {
    type V = XmlAttributeView;

    open spec fn view(&self) -> XmlAttributeView {
        XmlAttributeView { key: self.key@, value: self.value@ }
    }
}

pub open spec fn attribute_view(a: Option<XmlAttribute>) -> Option<XmlAttributeView> {
    match a {
        Some(x) => Some(x@),
        None => None,
    }
}

impl View for XmlTag {
    type V = XmlTagView;

    open spec fn view(&self) -> XmlTagView {
        XmlTagView {
            name: self.name@,
            attributes: self.attributes@.map_values(|a: Option<XmlAttribute>| attribute_view(a)),
        }
    }
}

impl View for XmlEvent {
    type V = XmlEventView;

    open spec fn view(&self) -> XmlEventView {
        match self {
            XmlEvent::Start(t) => XmlEventView::Start(t@),
            XmlEvent::Empty(t) => XmlEventView::Empty(t@),
            XmlEvent::End(n) => XmlEventView::End(n@),
            XmlEvent::Text(t) => XmlEventView::Text(
                match t {
                    Some(s) => Some(s@),
                    None => None,
                },
            ),
            XmlEvent::Eof => XmlEventView::Eof,
            XmlEvent::Other => XmlEventView::Other,
            XmlEvent::Fail(m) => XmlEventView::Fail(m@),
        }
    }
}

/// An event after which the reader is not consulted again.
pub open spec fn is_terminal(e: XmlEventView) -> bool {
    e is Eof || e is Fail
}

/// A finite event sequence that ends with its first terminal event.
pub open spec fn ends_at_first_terminal(s: Seq<XmlEventView>) -> bool {
    &&& s.len() > 0
    &&& is_terminal(s.last())
    &&& forall|i: int| 0 <= i < s.len() - 1 ==> !is_terminal(#[trigger] s[i])
}

/// The views of a list of events.
pub open spec fn events_view(v: Seq<XmlEvent>) -> Seq<XmlEventView> {
    v.map_values(|e: XmlEvent| e@)
}

/// The events `quick_xml` reads from a document, with text kept untrimmed,
/// up to and including the end of the document or the first error.
pub uninterp spec fn xml_events(xml: Seq<char>) -> Seq<XmlEventView>;

/// The events a `quick_xml` reader over a byte slice has still to yield,
/// up to and including the end or the first error.
pub uninterp spec fn xml_pending(reader: quick_xml::Reader<&[u8]>) -> Seq<XmlEventView>;

/// A `quick_xml` reader.
#[verifier::external_type_specification]
#[verifier::external_body]
#[verifier::reject_recursive_types(R)]
pub struct ExXmlReader<R>(quick_xml::Reader<R>);

/// `quick_xml::Reader::from_str` with `trim_text(false)`. The reader yields
/// the document's events; the reading ends, at the latest, with the end of
/// the document.
#[verifier::external_body]
fn open_xml_reader<'a>(xml: &'a str) -> (r: quick_xml::Reader<&'a [u8]>)
    ensures
        xml_pending(r) == xml_events(xml@),
        ends_at_first_terminal(xml_pending(r)),
{
    let mut reader = quick_xml::Reader::from_str(xml);
    reader.config_mut().trim_text(false);
    reader
}

/// A start tag as `quick_xml` hands it out.
#[verifier::external_type_specification]
#[verifier::external_body]
pub struct ExBytesStart<'a>(quick_xml::events::BytesStart<'a>);

/// The name and attributes a start tag holds.
pub uninterp spec fn tag_contents(tag: quick_xml::events::BytesStart<'static>) -> XmlTagView;

/// An event as read: a start or empty tag still as `quick_xml` holds it, or
/// any other event already as a plain value.
pub enum RawXmlEvent {
    Start(quick_xml::events::BytesStart<'static>),
    Empty(quick_xml::events::BytesStart<'static>),
    Other(XmlEvent),
}

/// The plain value a read event stands for.
pub open spec fn raw_view(ev: RawXmlEvent) -> XmlEventView {
    match ev {
        RawXmlEvent::Start(t) => XmlEventView::Start(tag_contents(t)),
        RawXmlEvent::Empty(t) => XmlEventView::Empty(tag_contents(t)),
        RawXmlEvent::Other(e) => e@,
    }
}

/// `quick_xml::Reader::read_event_into`: the next event; tags are kept as
/// read, end tags become their raw name, text is unescaped, errors become
/// their message.
#[verifier::external_body]
fn next_raw_event(reader: &mut quick_xml::Reader<&[u8]>) -> (ev: RawXmlEvent)
    ensures
        xml_pending(*old(reader)).len() > 0 ==> raw_view(ev) == xml_pending(*old(reader))[0],
        xml_pending(*old(reader)).len() > 0 ==> xml_pending(*final(reader)) == xml_pending(
            *old(reader),
        ).drop_first(),
{
    let mut buf = Vec::new();
    match reader.read_event_into(&mut buf) {
        Ok(Event::Start(e)) => RawXmlEvent::Start(e.into_owned()),
        Ok(Event::Empty(e)) => RawXmlEvent::Empty(e.into_owned()),
        Ok(Event::End(e)) => RawXmlEvent::Other(XmlEvent::End(e.name().0.to_vec())),
        Ok(Event::Text(e)) => RawXmlEvent::Other(XmlEvent::Text(e.unescape().ok().map(|t| t.into_owned()))),
        Ok(Event::Eof) => RawXmlEvent::Other(XmlEvent::Eof),
        Ok(_) => RawXmlEvent::Other(XmlEvent::Other),
        Err(e) => RawXmlEvent::Other(XmlEvent::Fail(e.to_string())),
    }
}

/// `BytesStart::name` and `BytesStart::attributes`: the tag's name and its
/// attributes as raw bytes, a malformed attribute as `None`.
#[verifier::external_body]
fn start_tag(tag: &quick_xml::events::BytesStart<'static>) -> (t: XmlTag)
    ensures
        t@ == tag_contents(*tag),
{
    let attributes = tag.attributes().map(|a| a.ok().map(|a| XmlAttribute {
        key: a.key.0.to_vec(),
        value: a.value.to_vec(),
    }));
    XmlTag { name: tag.name().0.to_vec(), attributes: attributes.collect() }
}

/// The next event of the reader as a plain value.
fn next_xml_event(reader: &mut quick_xml::Reader<&[u8]>) -> (ev: XmlEvent)
    ensures
        xml_pending(*old(reader)).len() > 0 ==> ev@ == xml_pending(*old(reader))[0],
        xml_pending(*old(reader)).len() > 0 ==> xml_pending(*final(reader)) == xml_pending(
            *old(reader),
        ).drop_first(),
{
    match next_raw_event(reader) {
        RawXmlEvent::Start(t) => XmlEvent::Start(start_tag(&t)),
        RawXmlEvent::Empty(t) => XmlEvent::Empty(start_tag(&t)),
        RawXmlEvent::Other(e) => e,
    }
}

/// All events of a document, up to and including the end of the document or
/// the first error.
pub fn read_xml_events(xml: &str) -> (v: Vec<XmlEvent>)
    ensures
        events_view(v@) == xml_events(xml@),
        ends_at_first_terminal(xml_events(xml@)),
{
    let mut reader = open_xml_reader(xml);
    let ghost all = xml_events(xml@);
    let mut out: Vec<XmlEvent> = Vec::new();
    loop
        invariant
            ends_at_first_terminal(all),
            all == xml_events(xml@),
            events_view(out@) + xml_pending(reader) == all,
            out@.len() == 0 || !is_terminal(out@.last()@),
            xml_pending(reader).len() > 0,
        decreases xml_pending(reader).len(),
    {
        let ghost before = xml_pending(reader);
        let ev = next_xml_event(&mut reader);
        let terminal = match &ev {
            XmlEvent::Eof => true,
            XmlEvent::Fail(_) => true,
            _ => false,
        };
        let ghost old_out = out@;
        out.push(ev);
        proof {
            assert(events_view(out@) =~= events_view(old_out).push(before[0]));
            assert(events_view(out@) + xml_pending(reader) =~= all) by {
                assert(before =~= seq![before[0]] + before.drop_first());
            }
        }
        if terminal {
            assert(events_view(out@) =~= all) by {
                let k = events_view(old_out).len() as int;
                assert(all[k] == before[0]);
                if k < all.len() - 1 {
                    assert(!is_terminal(all[k]));
                }
            }
            return out;
        }
        proof {
            let k = events_view(old_out).len() as int;
            assert(all[k] == before[0]);
            assert(k != all.len() - 1);
            assert(xml_pending(reader).len() > 0);
        }
    }
}

/// The local part of a qualified name: what follows the first `:`, or the
/// whole name when there is none.
pub open spec fn local_name_spec(qname: Seq<u8>) -> Seq<u8> {
    if exists|i: int| 0 <= i < qname.len() && qname[i] == (':' as u8) {
        let i = choose|i: int|
            0 <= i < qname.len() && qname[i] == (':' as u8) && forall|j: int|
                0 <= j < i ==> qname[j] != (':' as u8);
        qname.subrange(i + 1, qname.len() as int)
    } else {
        qname
    }
}

/// The local part of a qualified name (the text after the first `:`).
pub fn local_name(qname: &Vec<u8>) -> (r: Vec<u8>)
    ensures
        r@ == local_name_spec(qname@),
{
    let mut i: usize = 0;
    while i < qname.len()
        invariant
            i <= qname.len(),
            forall|j: int| 0 <= j < i ==> qname@[j] != (':' as u8),
        decreases qname.len() - i,
    {
        if qname[i] == (':' as u8) {
            let mut out: Vec<u8> = Vec::new();
            let mut k = i + 1;
            while k < qname.len()
                invariant
                    i < k <= qname.len(),
                    out@ == qname@.subrange(i + 1, k as int),
                decreases qname.len() - k,
            {
                out.push(qname[k]);
                k = k + 1;
                assert(out@ =~= qname@.subrange(i + 1, k as int));
            }
            proof {
                let w = choose|w: int|
                    0 <= w < qname@.len() && qname@[w] == (':' as u8) && forall|j: int|
                        0 <= j < w ==> qname@[j] != (':' as u8);
                assert(0 <= i < qname@.len() && qname@[i as int] == (':' as u8) && forall|j: int|
                    0 <= j < i ==> qname@[j] != (':' as u8));
                if w < i {
                    assert(qname@[w] != (':' as u8));
                }
                if w > i {
                    assert(qname@[i as int] != (':' as u8));
                }
            }
            return out;
        }
        i = i + 1;
    }
    crate::paths::copy_bytes(qname)
}

/// The value of the first readable attribute whose key is exactly `key`.
pub open spec fn attr_value_spec(attrs: Seq<Option<XmlAttributeView>>, key: Seq<u8>) -> Option<
    Seq<u8>,
>
    decreases attrs.len(),
{
    if attrs.len() == 0 {
        None
    } else {
        match attrs[0] {
            Some(a) => if a.key == key {
                Some(a.value)
            } else {
                attr_value_spec(attrs.drop_first(), key)
            },
            None => attr_value_spec(attrs.drop_first(), key),
        }
    }
}

/// The text of the first readable attribute named `key` (ASCII), with
/// invalid UTF-8 replaced.
pub open spec fn attr_text_spec(tag: XmlTagView, key: Seq<char>) -> Option<Seq<char>> {
    match attr_value_spec(tag.attributes, crate::text::ascii_bytes(key)) {
        Some(v) => Some(crate::text::utf8_lossy(v)),
        None => None,
    }
}

/// The text of the first readable attribute whose key is `key`.
pub fn attr_val(tag: &XmlTag, key: &str) -> (r: Option<String>)
    ensures
        match (r, attr_text_spec(tag@, key@)) {
            (Some(a), Some(b)) => a@ == b,
            (None, None) => true,
            _ => false,
        },
{
    let ghost attrs = tag@.attributes;
    let ghost k = crate::text::ascii_bytes(key@);
    let mut i: usize = 0;
    assert(attrs.skip(0) =~= attrs);
    while i < tag.attributes.len()
        invariant
            i <= tag.attributes.len(),
            attrs == tag@.attributes,
            k == crate::text::ascii_bytes(key@),
            attr_value_spec(attrs, k) == attr_value_spec(attrs.skip(i as int), k),
        decreases tag.attributes.len() - i,
    {
        proof {
            assert(attrs.skip(i as int).drop_first() =~= attrs.skip(i + 1));
            assert(attrs.skip(i as int)[0] == attrs[i as int]);
            assert(attrs[i as int] == attribute_view(tag.attributes@[i as int]));
        }
        match &tag.attributes[i] {
            Some(a) => {
                let hit = crate::text::ascii_eq(&a.key, key);
                proof {
                    let rest = attrs.skip(i as int);
                    assert(rest.len() > 0);
                    assert(rest[0] == Some(a@));
                    assert(a@.key == a.key@);
                    if !hit {
                        assert(attr_value_spec(rest, k) == attr_value_spec(rest.drop_first(), k));
                    } else {
                        assert(attr_value_spec(rest, k) == Some(a.value@));
                    }
                }
                if hit {
                    return Some(crate::text::lossy_text(&a.value));
                }
            },
            None => {
                proof {
                    let rest = attrs.skip(i as int);
                    assert(rest.len() > 0);
                    assert(rest[0] is None);
                    assert(attr_value_spec(rest, k) == attr_value_spec(rest.drop_first(), k));
                }
            },
        }
        i = i + 1;
    }
    proof {
        assert(attrs.skip(i as int).len() == 0);
    }
    None
}

} // verus!
