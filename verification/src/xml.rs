//! Reading XML: the events of a document, decoded into plain values.

use quick_xml::events::attributes::Attribute;
use quick_xml::events::attributes::Attributes;
use quick_xml::events::BytesText;
use quick_xml::events::Event::{CData, Empty, End, Eof, Start, Text};
use quick_xml::Reader;
use vstd::prelude::*;

verus! {

/// A `quick_xml::Reader` over the bytes of a document.
#[verifier::external_body]
pub struct XmlReader<'a> {
    inner: Reader<&'a [u8]>,
}

/// One event of a document as the reader hands it out, in bytes.
#[derive(Debug)]
pub enum RawXml {
    /// An opening tag: its content and its name.
    Start(Vec<u8>, Vec<u8>),
    /// A tag that closes itself: its content and its name.
    Empty(Vec<u8>, Vec<u8>),
    /// A closing tag.
    End,
    /// Character data, escaped.
    Text(Vec<u8>),
    /// A CDATA section.
    CData(Vec<u8>),
    /// A comment, a declaration, a processing instruction or a doctype.
    Other,
    /// The end of the document.
    Eof,
    /// The document is malformed here; the reader's message.
    Error(String),
}

/// What a [`RawXml`] holds.
pub enum RawXmlView {
    Start(Seq<u8>, Seq<u8>),
    Empty(Seq<u8>, Seq<u8>),
    End,
    Text(Seq<u8>),
    CData(Seq<u8>),
    Other,
    Eof,
    Error(Seq<char>),
}

impl View for RawXml {
    type V = RawXmlView;

    open spec fn view(&self) -> RawXmlView {
        match self {
            RawXml::Start(content, name) => RawXmlView::Start(content@, name@),
            RawXml::Empty(content, name) => RawXmlView::Empty(content@, name@),
            RawXml::End => RawXmlView::End,
            RawXml::Text(content) => RawXmlView::Text(content@),
            RawXml::CData(content) => RawXmlView::CData(content@),
            RawXml::Other => RawXmlView::Other,
            RawXml::Eof => RawXmlView::Eof,
            RawXml::Error(message) => RawXmlView::Error(message@),
        }
    }
}

/// One step of reading a document: the event, and the name of the character
/// encoding that the reader has settled on once it has read the event.
pub struct RawStep {
    pub event: RawXmlView,
    pub encoding: Seq<char>,
}

/// The steps in which a trimming reader goes through a document, up to its
/// end or to the first error, which is then the last step.
pub uninterp spec fn xml_steps(bytes: Seq<u8>) -> Seq<RawStep>;

/// The steps that a reader has still to take.
pub uninterp spec fn pending(reader: XmlReader) -> Seq<RawStep>;

/// The name of the character encoding that a reader decodes with.
pub uninterp spec fn encoding_of(reader: XmlReader) -> Seq<char>;

/// The text that bytes stand for in a character encoding.
pub uninterp spec fn decoded(encoding: Seq<char>, bytes: Seq<u8>) -> Seq<char>;

/// The text that escaped character data stands for in a character encoding,
/// or the message of the error in it.
pub uninterp spec fn unescaped_text(encoding: Seq<char>, bytes: Seq<u8>) -> Result<
    Seq<char>,
    Seq<char>,
>;

/// The text that an escaped attribute value stands for in a character
/// encoding, or the message of the error in it.
pub uninterp spec fn unescaped_value(encoding: Seq<char>, bytes: Seq<u8>) -> Result<
    Seq<char>,
    Seq<char>,
>;

/// One attribute of a tag, in bytes.
#[derive(Debug)]
pub enum RawAttr {
    /// The key and the value between its quotes.
    Pair(Vec<u8>, Vec<u8>),
    /// The tag is malformed here; the reader's message.
    Error(String),
}

/// What a [`RawAttr`] holds.
pub enum RawAttrView {
    Pair(Seq<u8>, Seq<u8>),
    Error(Seq<char>),
}

impl View for RawAttr {
    type V = RawAttrView;

    open spec fn view(&self) -> RawAttrView {
        match self {
            RawAttr::Pair(key, value) => RawAttrView::Pair(key@, value@),
            RawAttr::Error(message) => RawAttrView::Error(message@),
        }
    }
}

/// The views of a list of raw attributes.
pub open spec fn raw_attr_views(attrs: Seq<RawAttr>) -> Seq<RawAttrView> {
    attrs.map_values(|a: RawAttr| a@)
}

/// The attributes of a tag with the given content, behind a name of the
/// given length, up to the first malformed one, which is an error.
pub uninterp spec fn raw_attributes(content: Seq<u8>, name_len: nat) -> Seq<RawAttrView>;

/// `Reader::from_reader` on a byte slice, then `Reader::trim_text(true)`: a
/// reader at the start of the document that drops the white space around
/// character data. What it will read depends on the bytes alone.
#[verifier::external_body]
fn open_reader<'a>(bytes: &'a [u8]) -> (reader: XmlReader<'a>)
    ensures
        pending(reader) == xml_steps(bytes@),
{
    let mut inner = Reader::from_reader(bytes);
    inner.trim_text(true);
    XmlReader { inner }
}

/// What reading one event does to a reader. With steps pending, the event
/// is that of the first, which is no `Eof`; the reader has the other steps
/// left and the encoding of the first. Without, the event is `Eof` and no
/// step is pending.
pub open spec fn took_step(before: XmlReader, after: XmlReader, event: RawXmlView) -> bool {
    if pending(before).len() > 0 {
        &&& event == pending(before)[0].event
        &&& !(event is Eof)
        &&& pending(after) == pending(before).skip(1)
        &&& encoding_of(after) == pending(before)[0].encoding
    } else {
        event is Eof && pending(after).len() == 0
    }
}

/// `Reader::read_event`: takes the next step. At the end of the document,
/// and after an error, every further call gives `Eof`. The reader hands out
/// a CDATA section escaped; `BytesText::unescaped` gives back what the
/// document holds.
#[verifier::external_body]
fn read_event(reader: &mut XmlReader) -> (event: RawXml)
    ensures
        took_step(*old(reader), *final(reader), event@),
{
    let mut buf = Vec::new();
    match reader.inner.read_event(&mut buf) {
        Ok(Start(e)) => RawXml::Start(e.to_vec(), e.name().to_vec()),
        Ok(Empty(e)) => RawXml::Empty(e.to_vec(), e.name().to_vec()),
        Ok(End(_)) => RawXml::End,
        Ok(Text(e)) => RawXml::Text(e.to_vec()),
        Ok(CData(e)) => match e.unescaped() {
            Ok(plain) => RawXml::CData(plain.into_owned()),
            Err(e) => RawXml::Error(e.to_string()),
        },
        Ok(Eof) => RawXml::Eof,
        Ok(_) => RawXml::Other,
        Err(e) => RawXml::Error(e.to_string()),
    }
}

/// `Reader::decode`: the text of the bytes in the reader's encoding, a
/// malformed sequence giving the replacement character.
#[verifier::external_body]
fn decode(reader: &XmlReader, bytes: &[u8]) -> (text: String)
    ensures
        text@ == decoded(encoding_of(*reader), bytes@),
{
    reader.inner.decode(bytes).into_owned()
}

/// `BytesText::unescape_and_decode`: decodes escaped character data and
/// replaces its entities.
#[verifier::external_body]
fn unescape_text(reader: &XmlReader, bytes: &[u8]) -> (text: Result<String, String>)
    ensures
        result_text(text) == unescaped_text(encoding_of(*reader), bytes@),
{
    BytesText::from_escaped(bytes).unescape_and_decode(&reader.inner).map_err(|e| e.to_string())
}

/// `Attribute::unescape_and_decode_value`: decodes an attribute value and
/// replaces its entities.
#[verifier::external_body]
fn unescape_value(reader: &XmlReader, bytes: &[u8]) -> (text: Result<String, String>)
    ensures
        result_text(text) == unescaped_value(encoding_of(*reader), bytes@),
{
    let attr = Attribute::from((&b""[..], bytes));
    attr.unescape_and_decode_value(&reader.inner).map_err(|e| e.to_string())
}

/// The `quick_xml::events::attributes::Attributes` of a tag.
#[verifier::external_body]
pub struct AttrReader<'a> {
    inner: Attributes<'a>,
}

/// The attributes that an iterator has still to give.
pub uninterp spec fn pending_attributes(iter: AttrReader) -> Seq<RawAttrView>;

/// `Attributes::new`: an iterator over the attributes of a tag with the
/// given content, behind a name of the given length. What it will give
/// depends on these alone.
#[verifier::external_body]
fn attributes_of<'a>(content: &'a [u8], name_len: usize) -> (iter: AttrReader<'a>)
    ensures
        pending_attributes(iter) == raw_attributes(content@, name_len as nat),
{
    AttrReader { inner: Attributes::new(content, name_len) }
}

/// What taking one attribute does to an iterator: it gives the first of
/// those pending and has the others left, or gives none where none is
/// pending.
pub open spec fn took_attribute(before: AttrReader, after: AttrReader, attr: Option<RawAttr>) -> bool {
    match attr {
        Some(a) => {
            &&& pending_attributes(before).len() > 0
            &&& a@ == pending_attributes(before)[0]
            &&& pending_attributes(after) == pending_attributes(before).skip(1)
        },
        None => pending_attributes(before).len() == 0 && pending_attributes(after).len() == 0,
    }
}

/// `Attributes::next`: the next attribute of the tag. A malformed or
/// repeated attribute comes as an error and is the last.
#[verifier::external_body]
fn next_attribute(iter: &mut AttrReader) -> (attr: Option<RawAttr>)
    ensures
        took_attribute(*old(iter), *final(iter), attr),
{
    match iter.inner.next() {
        Some(Ok(a)) => Some(RawAttr::Pair(a.key.to_vec(), a.value.into_owned())),
        Some(Err(e)) => Some(RawAttr::Error(e.to_string())),
        None => None,
    }
}

/// Reads the attributes of a tag with the given content, behind a name of
/// the given length.
fn read_attributes(content: &[u8], name_len: usize) -> (attrs: Vec<RawAttr>)
    ensures
        raw_attr_views(attrs@) == raw_attributes(content@, name_len as nat),
{
    let mut iter = attributes_of(content, name_len);
    let mut attrs: Vec<RawAttr> = Vec::new();
    loop
        invariant_except_break
            raw_attr_views(attrs@) + pending_attributes(iter) == raw_attributes(
                content@,
                name_len as nat,
            ),
        ensures
            raw_attr_views(attrs@) == raw_attributes(content@, name_len as nat),
        decreases pending_attributes(iter).len(),
    {
        let ghost before = raw_attr_views(attrs@);
        let ghost waiting = pending_attributes(iter);
        match next_attribute(&mut iter) {
            Some(attr) => {
                attrs.push(attr);
                proof {
                    assert(raw_attr_views(attrs@) =~= before.push(waiting[0]));
                    assert(raw_attr_views(attrs@) + pending_attributes(iter) =~= before + waiting);
                }
            },
            None => {
                assert(before + waiting =~= before);
                break ;
            },
        }
    }
    attrs
}

/// The text of a result on either side.
pub open spec fn result_text(r: Result<String, String>) -> Result<Seq<char>, Seq<char>> {
    match r {
        Ok(s) => Ok(s@),
        Err(e) => Err(e@),
    }
}

/// One attribute of a tag, decoded.
#[derive(Debug, PartialEq, Eq)]
pub enum XmlAttr {
    /// The key, the value as written, and the value with its entities
    /// replaced or the message of the error in it.
    Pair { key: String, value: String, unescaped: Result<String, String> },
    /// The tag is malformed here; the reader's message.
    Malformed(String),
}

/// What an [`XmlAttr`] holds.
pub enum XmlAttrView {
    Pair { key: Seq<char>, value: Seq<char>, unescaped: Result<Seq<char>, Seq<char>> },
    Malformed(Seq<char>),
}

impl View for XmlAttr {
    type V = XmlAttrView;

    open spec fn view(&self) -> XmlAttrView {
        match self {
            XmlAttr::Pair { key, value, unescaped } => XmlAttrView::Pair {
                key: key@,
                value: value@,
                unescaped: result_text(*unescaped),
            },
            XmlAttr::Malformed(message) => XmlAttrView::Malformed(message@),
        }
    }
}

/// The views of a list of attributes.
pub open spec fn attr_views(attrs: Seq<XmlAttr>) -> Seq<XmlAttrView> {
    attrs.map_values(|a: XmlAttr| a@)
}

/// A tag, decoded: its name, its name without a namespace prefix, and its
/// attributes in their order.
#[derive(Debug, PartialEq, Eq)]
pub struct XmlTag {
    pub name: String,
    pub local_name: String,
    pub attrs: Vec<XmlAttr>,
}

/// What an [`XmlTag`] holds.
pub struct XmlTagView {
    pub name: Seq<char>,
    pub local_name: Seq<char>,
    pub attrs: Seq<XmlAttrView>,
}

impl View for XmlTag {
    type V = XmlTagView;

    open spec fn view(&self) -> XmlTagView {
        XmlTagView { name: self.name@, local_name: self.local_name@, attrs: attr_views(self.attrs@) }
    }
}

/// One event of a document, decoded.
#[derive(Debug, PartialEq, Eq)]
pub enum XmlItem {
    /// An opening tag.
    Start(XmlTag),
    /// A tag that closes itself.
    Empty(XmlTag),
    /// A closing tag.
    End,
    /// Character data: as written, and with its entities replaced or the
    /// message of the error in it.
    Text { raw: String, unescaped: Result<String, String> },
    /// The text of a CDATA section.
    CData(String),
    /// A comment, a declaration, a processing instruction or a doctype.
    Other,
    /// The document is malformed here; the reader's message.
    Failed(String),
}

/// What an [`XmlItem`] holds.
pub enum XmlItemView {
    Start(XmlTagView),
    Empty(XmlTagView),
    End,
    Text { raw: Seq<char>, unescaped: Result<Seq<char>, Seq<char>> },
    CData(Seq<char>),
    Other,
    Failed(Seq<char>),
}

impl View for XmlItem {
    type V = XmlItemView;

    open spec fn view(&self) -> XmlItemView {
        match self {
            XmlItem::Start(tag) => XmlItemView::Start(tag@),
            XmlItem::Empty(tag) => XmlItemView::Empty(tag@),
            XmlItem::End => XmlItemView::End,
            XmlItem::Text { raw, unescaped } => XmlItemView::Text {
                raw: raw@,
                unescaped: result_text(*unescaped),
            },
            XmlItem::CData(text) => XmlItemView::CData(text@),
            XmlItem::Other => XmlItemView::Other,
            XmlItem::Failed(message) => XmlItemView::Failed(message@),
        }
    }
}

/// The views of a list of events.
pub open spec fn xml_views(items: Seq<XmlItem>) -> Seq<XmlItemView> {
    items.map_values(|i: XmlItem| i@)
}

/// The index of the first colon of a name, or its length where it has none.
pub open spec fn colon_index(name: Seq<u8>) -> int
    decreases name.len(),
{
    if name.len() == 0 || name[0] == 0x3a {
        0
    } else {
        1 + colon_index(name.skip(1))
    }
}

/// A tag name without its namespace prefix: what follows the first colon,
/// or the whole name where it has none.
pub open spec fn local_part(name: Seq<u8>) -> Seq<u8> {
    if colon_index(name) < name.len() {
        name.skip(colon_index(name) + 1)
    } else {
        name
    }
}

/// A count of leading bytes without a colon, followed by a colon or the end
/// of the name, is the index of the first colon.
pub proof fn lemma_colon_index_is(name: Seq<u8>, k: int)
    requires
        0 <= k <= name.len(),
        forall|i: int| 0 <= i < k ==> name[i] != 0x3a,
        k < name.len() ==> name[k] == 0x3a,
    ensures
        colon_index(name) == k,
    decreases name.len(),
{
    if name.len() > 0 && name[0] != 0x3a {
        assert forall|i: int| 0 <= i < k - 1 implies name.skip(1)[i] != 0x3a by {
            assert(name.skip(1)[i] == name[i + 1]);
        }
        lemma_colon_index_is(name.skip(1), k - 1);
    }
}

/// An attribute decoded in a character encoding.
pub open spec fn decode_attr(encoding: Seq<char>, attr: RawAttrView) -> XmlAttrView {
    match attr {
        RawAttrView::Pair(key, value) => XmlAttrView::Pair {
            key: decoded(encoding, key),
            value: decoded(encoding, value),
            unescaped: unescaped_value(encoding, value),
        },
        RawAttrView::Error(message) => XmlAttrView::Malformed(message),
    }
}

/// A tag decoded in a character encoding.
pub open spec fn decode_tag(encoding: Seq<char>, content: Seq<u8>, name: Seq<u8>) -> XmlTagView {
    XmlTagView {
        name: decoded(encoding, name),
        local_name: decoded(encoding, local_part(name)),
        attrs: raw_attributes(content, name.len()).map_values(
            |a: RawAttrView| decode_attr(encoding, a),
        ),
    }
}

/// A step decoded in the encoding that the reader had settled on with it.
pub open spec fn decode_step(step: RawStep) -> XmlItemView {
    match step.event {
        RawXmlView::Start(content, name) => XmlItemView::Start(
            decode_tag(step.encoding, content, name),
        ),
        RawXmlView::Empty(content, name) => XmlItemView::Empty(
            decode_tag(step.encoding, content, name),
        ),
        RawXmlView::End => XmlItemView::End,
        RawXmlView::Text(content) => XmlItemView::Text {
            raw: decoded(step.encoding, content),
            unescaped: unescaped_text(step.encoding, content),
        },
        RawXmlView::CData(content) => XmlItemView::CData(decoded(step.encoding, content)),
        RawXmlView::Other => XmlItemView::Other,
        RawXmlView::Eof => XmlItemView::Other,
        RawXmlView::Error(message) => XmlItemView::Failed(message),
    }
}

/// The steps of a document decoded, up to and with the first error.
pub open spec fn decode_steps(steps: Seq<RawStep>) -> Seq<XmlItemView>
    decreases steps.len(),
{
    if steps.len() == 0 {
        seq![]
    } else if steps[0].event is Error {
        seq![decode_step(steps[0])]
    } else {
        seq![decode_step(steps[0])] + decode_steps(steps.skip(1))
    }
}

/// The events of a document, decoded, up to its end or to the first error,
/// which is then the last of them.
pub open spec fn xml_items(bytes: Seq<u8>) -> Seq<XmlItemView> {
    decode_steps(xml_steps(bytes))
}

/// Copies the bytes of a slice from `from` on.
fn bytes_from(bytes: &[u8], from: usize) -> (r: Vec<u8>)
    requires
        from <= bytes.len(),
    ensures
        r@ == bytes@.skip(from as int),
{
    let mut out: Vec<u8> = Vec::new();
    let mut i: usize = from;
    while i < bytes.len()
        invariant
            from <= i <= bytes.len(),
            out@ == bytes@.subrange(from as int, i as int),
        decreases bytes.len() - i,
    {
        out.push(bytes[i]);
        proof {
            assert(bytes@.subrange(from as int, i + 1) =~= bytes@.subrange(
                from as int,
                i as int,
            ).push(bytes[i as int]));
        }
        i = i + 1;
    }
    assert(bytes@.subrange(from as int, bytes.len() as int) =~= bytes@.skip(from as int));
    out
}

/// The name of a tag without its namespace prefix.
pub fn local_name(name: &[u8]) -> (r: Vec<u8>)
    ensures
        r@ == local_part(name@),
{
    let mut i: usize = 0;
    while i < name.len() && name[i] != 0x3a
        invariant
            i <= name.len(),
            forall|j: int| 0 <= j < i ==> name[j] != 0x3a,
        decreases name.len() - i,
    {
        i = i + 1;
    }
    proof {
        lemma_colon_index_is(name@, i as int);
    }
    if i < name.len() {
        bytes_from(name, i + 1)
    } else {
        let r = bytes_from(name, 0);
        assert(name@.skip(0) =~= name@);
        r
    }
}

/// Decodes the attributes of a tag.
fn decode_attributes(reader: &XmlReader, content: &[u8], name_len: usize) -> (attrs: Vec<XmlAttr>)
    ensures
        attr_views(attrs@) == raw_attributes(content@, name_len as nat).map_values(
            |a: RawAttrView| decode_attr(encoding_of(*reader), a),
        ),
{
    let raw = read_attributes(content, name_len);
    let mut out: Vec<XmlAttr> = Vec::new();
    let mut i: usize = 0;
    while i < raw.len()
        invariant
            i <= raw.len(),
            out.len() == i,
            forall|j: int|
                0 <= j < i ==> (#[trigger] out[j])@ == decode_attr(encoding_of(*reader), raw[j]@),
        decreases raw.len() - i,
    {
        let attr = match &raw[i] {
            RawAttr::Pair(key, value) => XmlAttr::Pair {
                key: decode(reader, key.as_slice()),
                value: decode(reader, value.as_slice()),
                unescaped: unescape_value(reader, value.as_slice()),
            },
            RawAttr::Error(message) => XmlAttr::Malformed(message.clone()),
        };
        out.push(attr);
        i = i + 1;
    }
    proof {
        assert(raw_attr_views(raw@).len() == raw.len());
        assert forall|j: int| 0 <= j < raw.len() implies raw_attr_views(raw@)[j] == raw[j]@ by {}
        assert(attr_views(out@) =~= raw_attr_views(raw@).map_values(
            |a: RawAttrView| decode_attr(encoding_of(*reader), a),
        ));
    }
    out
}

/// Decodes a tag.
fn decode_xml_tag(reader: &XmlReader, content: &[u8], name: &[u8]) -> (tag: XmlTag)
    ensures
        tag@ == decode_tag(encoding_of(*reader), content@, name@),
{
    let local = local_name(name);
    XmlTag {
        name: decode(reader, name),
        local_name: decode(reader, local.as_slice()),
        attrs: decode_attributes(reader, content, name.len()),
    }
}

/// Reads a document into its events, decoded, up to its end or to the first
/// error, which is then the last of them.
pub fn read_items(bytes: &[u8]) -> (items: Vec<XmlItem>)
    ensures
        xml_views(items@) == xml_items(bytes@),
{
    let mut reader = open_reader(bytes);
    let mut items: Vec<XmlItem> = Vec::new();
    loop
        invariant_except_break
            xml_views(items@) + decode_steps(pending(reader)) == xml_items(bytes@),
        ensures
            xml_views(items@) == xml_items(bytes@),
        decreases pending(reader).len(),
    {
        let ghost before = xml_views(items@);
        let ghost steps = pending(reader);
        let event = read_event(&mut reader);
        let item = match event {
            RawXml::Eof => {
                assert(before + decode_steps(steps) =~= before);
                break ;
            },
            RawXml::Start(content, name) => XmlItem::Start(
                decode_xml_tag(&reader, content.as_slice(), name.as_slice()),
            ),
            RawXml::Empty(content, name) => XmlItem::Empty(
                decode_xml_tag(&reader, content.as_slice(), name.as_slice()),
            ),
            RawXml::End => XmlItem::End,
            RawXml::Text(content) => XmlItem::Text {
                raw: decode(&reader, content.as_slice()),
                unescaped: unescape_text(&reader, content.as_slice()),
            },
            RawXml::CData(content) => XmlItem::CData(decode(&reader, content.as_slice())),
            RawXml::Other => XmlItem::Other,
            RawXml::Error(message) => {
                items.push(XmlItem::Failed(message));
                assert(xml_views(items@) =~= before + decode_steps(steps));
                break ;
            },
        };
        items.push(item);
        proof {
            assert(xml_views(items@) =~= before + seq![decode_step(steps[0])]);
            assert(xml_views(items@) + decode_steps(pending(reader)) =~= before + decode_steps(
                steps,
            ));
        }
    }
    items
}

} // verus!
