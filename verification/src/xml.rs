//! Reading a Tenhou log with `quick_xml`: the reader's events turned into
//! the plain [`XmlEvent`] values that the parser's state machine consumes.
//!
//! Tag and attribute names are decoded lossily from UTF-8 and lower-cased;
//! attribute values are unescaped (an attribute whose value does not
//! unescape gets an empty value, one the attribute iterator rejects is
//! skipped).

use vstd::prelude::*;

use crate::parser::{XmlEvent, attr_views};

verus! {

// ── outside types ─────────────────────────────────────────────

#[verifier::external_type_specification]
#[verifier::external_body]
#[verifier::reject_recursive_types(R)]
pub struct ExReader<R>(quick_xml::Reader<R>);

#[verifier::external_type_specification]
#[verifier::external_body]
pub struct ExBytesStart<'a>(quick_xml::events::BytesStart<'a>);

#[verifier::external_type_specification]
#[verifier::external_body]
pub struct ExBytesEnd<'a>(quick_xml::events::BytesEnd<'a>);

#[verifier::external_type_specification]
#[verifier::external_body]
pub struct ExAttributes<'a>(quick_xml::events::attributes::Attributes<'a>);

#[verifier::external_type_specification]
#[verifier::external_body]
pub struct ExAttrError(quick_xml::events::attributes::AttrError);

#[verifier::external_type_specification]
#[verifier::external_body]
pub struct ExAttribute<'a>(quick_xml::events::attributes::Attribute<'a>);

/// An event as the reader returns it, its borrowed parts made owned.
pub enum RawEvent {
    /// A start tag or an empty-element tag.
    Start(quick_xml::events::BytesStart<'static>),
    /// An end tag.
    End(quick_xml::events::BytesEnd<'static>),
    /// End of input.
    Eof,
    /// A reader error, rendered as text.
    Error(String),
    /// Any other event (text, comment, declaration, ...).
    Other,
}

// ── names for what std computes ───────────────────────────────

/// What `String::from_utf8_lossy` decodes from the bytes.
pub uninterp spec fn utf8_lossy(b: Seq<u8>) -> Seq<char>;

/// What `str::to_lowercase` gives for the characters.
pub uninterp spec fn lowercase(s: Seq<char>) -> Seq<char>;

/// A reader event as plain values.
pub enum XmlItem {
    /// A start or empty-element tag: its raw name and its attribute items.
    Start(Seq<u8>, Seq<Option<(Seq<u8>, Seq<u8>)>>),
    /// An end tag: its raw name.
    End(Seq<u8>),
    /// End of input.
    Eof,
    /// A reader error, by its message.
    Error(Seq<char>),
    /// Any other event (text, comment, declaration, ...).
    Other,
}

/// An end of input or a reader error.
pub open spec fn ends_item(it: XmlItem) -> bool {
    it is Eof || it is Error
}

/// The events a reader over the text yields, up to and including the first
/// end of input or reader error.
pub uninterp spec fn xml_items(xml: Seq<char>) -> Seq<XmlItem>;

/// The events a reader has still to yield, up to and including the first
/// end of input or reader error.
pub uninterp spec fn items_left(r: quick_xml::Reader<&[u8]>) -> Seq<XmlItem>;

/// The raw name of a start tag.
pub uninterp spec fn start_tag_name(e: quick_xml::events::BytesStart) -> Seq<u8>;

/// The raw name of an end tag.
pub uninterp spec fn end_tag_name(e: quick_xml::events::BytesEnd) -> Seq<u8>;

/// The attribute items of a tag, as its attribute iterator yields them:
/// `Some((key bytes, raw value bytes))` for an attribute, `None` for one the
/// iterator rejects.
pub uninterp spec fn tag_attrs(e: quick_xml::events::BytesStart) -> Seq<Option<(Seq<u8>, Seq<u8>)>>;

/// The items an attribute iterator has still to yield.
pub uninterp spec fn attrs_left(it: quick_xml::events::attributes::Attributes) -> Seq<Option<(Seq<u8>, Seq<u8>)>>;

/// The key bytes of an attribute.
pub uninterp spec fn attr_key(a: quick_xml::events::attributes::Attribute) -> Seq<u8>;

/// The raw value bytes of an attribute.
pub uninterp spec fn attr_value(a: quick_xml::events::attributes::Attribute) -> Seq<u8>;

/// What `Attribute::unescape_value` gives for raw value bytes: the text
/// with its escapes resolved, `None` where that fails.
pub uninterp spec fn unescaped(raw: Seq<u8>) -> Option<Seq<char>>;

/// The attribute list read from attribute items: rejected items skipped,
/// names decoded lossily and lower-cased, values unescaped (empty where that
/// fails).
pub open spec fn attr_pairs(items: Seq<Option<(Seq<u8>, Seq<u8>)>>) -> Seq<(Seq<char>, Seq<char>)>
    decreases items.len(),
{
    if items.len() == 0 {
        Seq::empty()
    } else {
        let rest = attr_pairs(items.drop_first());
        match items[0] {
            None => rest,
            Some((k, v)) => seq![(lowercase(utf8_lossy(k)), match unescaped(v) {
                Some(t) => t,
                None => Seq::<char>::empty(),
            })] + rest,
        }
    }
}

// ── trusted items ─────────────────────────────────────────────

/// `quick_xml::Reader::from_str`: a reader over the text, with all of the
/// text's events to come.  The reader reaches an end of input or an error,
/// every event before it taking at least one byte of input: the events are
/// finite, and only the last ends the input.
#[verifier::external_body]
fn new_reader(xml: &str) -> (r: quick_xml::Reader<&[u8]>)
    ensures
        items_left(r) == xml_items(xml@),
        items_left(r).len() > 0,
        ends_item(items_left(r).last()),
        forall|i: int| 0 <= i < items_left(r).len() - 1 ==> !ends_item(#[trigger] items_left(r)[i]),
{
    quick_xml::Reader::from_str(xml)
}

/// `quick_xml::Reader::read_event_into` with an empty buffer: the next
/// event, each variant carried over (start and empty tags alike as
/// `Start`, borrowed data made owned, the error as its message); the event
/// is then used up.
#[verifier::external_body]
fn read_event(r: &mut quick_xml::Reader<&[u8]>, buf: &mut Vec<u8>) -> (ev: RawEvent)
    requires
        items_left(*old(r)).len() > 0,
        old(buf)@.len() == 0,
    ensures
        items_left(*final(r)) == items_left(*old(r)).drop_first(),
        match ev {
            RawEvent::Start(e) => items_left(*old(r))[0] == XmlItem::Start(start_tag_name(e), tag_attrs(e)),
            RawEvent::End(e) => items_left(*old(r))[0] == XmlItem::End(end_tag_name(e)),
            RawEvent::Eof => items_left(*old(r))[0] is Eof,
            RawEvent::Error(m) => items_left(*old(r))[0] == XmlItem::Error(m@),
            RawEvent::Other => items_left(*old(r))[0] is Other,
        },
{
    match r.read_event_into(buf) {
        Ok(quick_xml::events::Event::Start(e)) => RawEvent::Start(e.into_owned()),
        Ok(quick_xml::events::Event::Empty(e)) => RawEvent::Start(e.into_owned()),
        Ok(quick_xml::events::Event::End(e)) => RawEvent::End(e.into_owned()),
        Ok(quick_xml::events::Event::Eof) => RawEvent::Eof,
        Err(e) => RawEvent::Error(e.to_string()),
        Ok(_) => RawEvent::Other,
    }
}

/// `quick_xml::events::BytesStart::name`: the raw tag name.
#[verifier::external_body]
fn start_name(e: &quick_xml::events::BytesStart) -> (r: Vec<u8>)
    ensures
        r@ == start_tag_name(*e),
{
    e.name().as_ref().to_vec()
}

/// `quick_xml::events::BytesEnd::name`: the raw tag name.
#[verifier::external_body]
fn end_name(e: &quick_xml::events::BytesEnd) -> (r: Vec<u8>)
    ensures
        r@ == end_tag_name(*e),
{
    e.name().as_ref().to_vec()
}

/// `quick_xml::events::BytesStart::attributes`: an iterator over the
/// tag's attribute items (duplicate names reported as errors), all still
/// to come.
#[verifier::external_body]
fn attributes<'a>(e: &'a quick_xml::events::BytesStart) -> (r: quick_xml::events::attributes::Attributes<'a>)
    ensures
        attrs_left(r) == tag_attrs(*e),
{
    e.attributes()
}

/// `Iterator::next` on the attributes: `None` once the items are used up
/// (the iterator is fused), otherwise the next item, `Some(None)` for one
/// the iterator rejects and `Some(Some(a))` for an attribute with that key
/// and raw value; the item is then used up.
#[verifier::external_body]
fn next_attribute<'a>(it: &mut quick_xml::events::attributes::Attributes<'a>) -> (r: Option<Option<quick_xml::events::attributes::Attribute<'a>>>)
    ensures
        attrs_left(*old(it)).len() == 0 ==> r is None && attrs_left(*final(it)) == attrs_left(*old(it)),
        attrs_left(*old(it)).len() > 0 ==> attrs_left(*final(it)) == attrs_left(*old(it)).drop_first() && match r {
            None => false,
            Some(None) => attrs_left(*old(it))[0] is None,
            Some(Some(a)) => attrs_left(*old(it))[0] == Some((attr_key(a), attr_value(a))),
        },
{
    match it.next() {
        Some(Ok(a)) => Some(Some(a)),
        Some(Err(_)) => Some(None),
        None => None,
    }
}

/// The `key` field of an attribute, as bytes.
#[verifier::external_body]
fn attribute_key(a: &quick_xml::events::attributes::Attribute) -> (r: Vec<u8>)
    ensures
        r@ == attr_key(*a),
{
    a.key.as_ref().to_vec()
}

/// `quick_xml::events::attributes::Attribute::unescape_value`: the value
/// with its escapes resolved, `None` where that fails.
#[verifier::external_body]
fn unescape_value(a: &quick_xml::events::attributes::Attribute) -> (r: Option<String>)
    ensures
        match r {
            Some(t) => unescaped(attr_value(*a)) == Some(t@),
            None => unescaped(attr_value(*a)) is None,
        },
{
    match a.unescape_value() {
        Ok(v) => Some(v.into_owned()),
        Err(_) => None,
    }
}

/// `String::from_utf8_lossy`: the bytes decoded as UTF-8, invalid sequences
/// replaced.
#[verifier::external_body]
fn decode_lossy(b: &[u8]) -> (r: String)
    ensures
        r@ == utf8_lossy(b@),
{
    String::from_utf8_lossy(b).into_owned()
}

/// `str::to_lowercase`.
#[verifier::external_body]
fn to_lower(s: &str) -> (r: String)
    ensures
        r@ == lowercase(s@),
{
    s.to_lowercase()
}

// ── conversion ────────────────────────────────────────────────

/// A name as the state machine reads it: decoded lossily, lower-cased.
fn lower_name(b: &[u8]) -> (r: String)
    ensures
        r@ == lowercase(utf8_lossy(b@)),
{
    let s = decode_lossy(b);
    to_lower(s.as_str())
}

/// The attributes of a tag: (lower-cased name, unescaped value) in document
/// order; rejected attributes are skipped, a value that does not unescape
/// is empty.
fn read_attrs(e: &quick_xml::events::BytesStart<'static>) -> (r: Vec<(String, String)>)
    ensures
        attr_views(r@) == attr_pairs(tag_attrs(*e)),
{
    let mut out: Vec<(String, String)> = Vec::new();
    let mut it = attributes(e);
    loop
        invariant
            attr_views(out@) + attr_pairs(attrs_left(it)) == attr_pairs(tag_attrs(*e)),
        ensures
            attr_views(out@) == attr_pairs(tag_attrs(*e)),
        decreases attrs_left(it).len(),
    {
        let ghost before = attrs_left(it);
        let ghost out0 = out@;
        match next_attribute(&mut it) {
            None => {
                assert(attr_pairs(before) == Seq::<(Seq<char>, Seq<char>)>::empty());
                assert(attr_views(out@) =~= attr_views(out@) + attr_pairs(before));
                break;
            },
            Some(None) => {},
            Some(Some(a)) => {
                let k = attribute_key(&a);
                let name = lower_name(k.as_slice());
                let value = match unescape_value(&a) {
                    Some(v) => v,
                    None => String::new(),
                };
                out.push((name, value));
                proof {
                    assert(attr_views(out@) =~= attr_views(out0).push((name@, value@)));
                    assert(attr_views(out@) + attr_pairs(attrs_left(it)) =~= attr_views(out0) + attr_pairs(before));
                }
            },
        }
    }
    out
}

/// The state machine's view of an event: names decoded lossily and
/// lower-cased, attributes as [`attr_pairs`] reads them.
pub open spec fn event_of(ev: XmlEvent, it: XmlItem) -> bool {
    match it {
        XmlItem::Start(n, a) => ev matches XmlEvent::Open { name, attrs } && name@ == lowercase(utf8_lossy(n))
            && attr_views(attrs@) == attr_pairs(a),
        XmlItem::End(n) => ev matches XmlEvent::Close { name } && name@ == lowercase(utf8_lossy(n)),
        XmlItem::Eof => ev is Eof,
        XmlItem::Error(m) => ev matches XmlEvent::Error { message } && message@ == m,
        XmlItem::Other => ev is Other,
    }
}

/// The state machine's view of each of the events.
pub open spec fn events_of(evs: Seq<XmlEvent>, items: Seq<XmlItem>) -> bool {
    &&& evs.len() == items.len()
    &&& forall|i: int| 0 <= i < items.len() ==> event_of(#[trigger] evs[i], items[i])
}

/// The state machine's view of a raw event.
pub fn convert_event(raw: RawEvent) -> (ev: XmlEvent)
    ensures
        match raw {
            RawEvent::Start(e) => event_of(ev, XmlItem::Start(start_tag_name(e), tag_attrs(e))),
            RawEvent::End(e) => event_of(ev, XmlItem::End(end_tag_name(e))),
            RawEvent::Eof => ev is Eof,
            RawEvent::Error(m) => ev == XmlEvent::Error { message: m },
            RawEvent::Other => ev is Other,
        },
{
    match raw {
        RawEvent::Start(e) => {
            let b = start_name(&e);
            let name = lower_name(b.as_slice());
            let attrs = read_attrs(&e);
            XmlEvent::Open { name, attrs }
        },
        RawEvent::End(e) => {
            let b = end_name(&e);
            let name = lower_name(b.as_slice());
            XmlEvent::Close { name }
        },
        RawEvent::Eof => XmlEvent::Eof,
        RawEvent::Error(m) => XmlEvent::Error { message: m },
        RawEvent::Other => XmlEvent::Other,
    }
}

/// The events of a log, up to and including the first end of input or
/// reader error, as the state machine reads them.
pub fn read_events(xml: &str) -> (evs: Vec<XmlEvent>)
    ensures
        events_of(evs@, xml_items(xml@)),
{
    let ghost items = xml_items(xml@);
    let mut reader = new_reader(xml);
    let mut buf: Vec<u8> = Vec::new();
    let mut evs: Vec<XmlEvent> = Vec::new();
    loop
        invariant_except_break
            buf@.len() == 0,
            items.len() > 0,
            ends_item(items.last()),
            forall|i: int| 0 <= i < items.len() - 1 ==> !ends_item(#[trigger] items[i]),
            evs@.len() < items.len(),
            items_left(reader) == items.subrange(evs@.len() as int, items.len() as int),
            forall|i: int| 0 <= i < evs@.len() ==> event_of(#[trigger] evs@[i], items[i]),
        ensures
            events_of(evs@, items),
        decreases items_left(reader).len(),
    {
        let ghost k = evs@.len() as int;
        let raw = read_event(&mut reader, &mut buf);
        let ev = convert_event(raw);
        let last = match ev {
            XmlEvent::Eof => true,
            XmlEvent::Error { .. } => true,
            _ => false,
        };
        proof {
            assert(items[k] == items.subrange(k, items.len() as int)[0]);
            assert(event_of(ev, items[k]));
            assert(last == ends_item(items[k]));
            assert(items.subrange(k, items.len() as int).drop_first() =~= items.subrange(k + 1, items.len() as int));
        }
        evs.push(ev);
        buf.clear();
        if last {
            proof {
                assert(k == items.len() - 1);
            }
            break;
        }
    }
    evs
}

} // verus!
