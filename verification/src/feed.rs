//! Feeds: their canonical shape, the reading of RSS and Atom documents, and
//! the links made absolute.

use vstd::prelude::*;
use crate::text::{
    chars_of, parse_u32, spec_parse_u32, spec_starts_with, starts_with, string_of, text_eq,
};
use crate::xml::{
    attr_views, read_items, xml_items, xml_views, XmlAttr, XmlAttrView, XmlItem,
    XmlItemView, XmlTag, XmlTagView,
};

verus! {

/// The text of an optional string.
pub open spec fn opt_text(o: Option<String>) -> Option<Seq<char>> {
    match o {
        Some(s) => Some(s@),
        None => None,
    }
}

/// Copies an optional string.
pub fn clone_opt(o: &Option<String>) -> (r: Option<String>)
    ensures
        opt_text(r) == opt_text(*o),
{
    match o {
        Some(s) => Some(s.clone()),
        None => None,
    }
}

/// One entry of a feed.
#[derive(Debug, Default, PartialEq, Eq)]
pub struct Item {
    pub title: Option<String>,
    pub link: Option<String>,
    pub id: Option<String>,
}

/// What an [`Item`] holds.
pub struct ItemView {
    pub title: Option<Seq<char>>,
    pub link: Option<Seq<char>>,
    pub id: Option<Seq<char>>,
}

impl View for Item {
    type V = ItemView;

    open spec fn view(&self) -> ItemView {
        ItemView { title: opt_text(self.title), link: opt_text(self.link), id: opt_text(self.id) }
    }
}

impl Clone for Item {
    fn clone(&self) -> (r: Self)
        ensures
            r@ == self@,
    {
        Item { title: clone_opt(&self.title), link: clone_opt(&self.link), id: clone_opt(&self.id) }
    }
}

/// A parsed feed: its title, the link of its site, the link it gives for
/// itself, its polling interval in minutes, and its entries in source order.
#[derive(Debug, Default, PartialEq, Eq)]
pub struct Rss {
    pub title: String,
    pub link: String,
    pub source: Option<String>,
    pub ttl: Option<u32>,
    pub items: Vec<Item>,
}

/// What an [`Rss`] holds.
pub struct RssView {
    pub title: Seq<char>,
    pub link: Seq<char>,
    pub source: Option<Seq<char>>,
    pub ttl: Option<u32>,
    pub items: Seq<ItemView>,
}

/// The views of a sequence of items.
pub open spec fn item_views(items: Seq<Item>) -> Seq<ItemView> {
    items.map_values(|i: Item| i@)
}

impl View for Rss {
    type V = RssView;

    open spec fn view(&self) -> RssView {
        RssView {
            title: self.title@,
            link: self.link@,
            source: opt_text(self.source),
            ttl: self.ttl,
            items: item_views(self.items@),
        }
    }
}

/// Copies a list of items.
pub fn clone_items(items: &Vec<Item>) -> (r: Vec<Item>)
    ensures
        item_views(r@) == item_views(items@),
{
    let mut out: Vec<Item> = Vec::new();
    let mut i: usize = 0;
    while i < items.len()
        invariant
            i <= items.len(),
            out.len() == i,
            forall|j: int| 0 <= j < i ==> out[j]@ == items[j]@,
        decreases items.len() - i,
    {
        out.push(items[i].clone());
        i = i + 1;
    }
    assert(item_views(out@) =~= item_views(items@));
    out
}

impl Clone for Rss {
    fn clone(&self) -> (r: Self)
        ensures
            r@ == self@,
    {
        Rss {
            title: self.title.clone(),
            link: self.link.clone(),
            source: clone_opt(&self.source),
            ttl: self.ttl,
            items: clone_items(&self.items),
        }
    }
}

/// Why a document could not be read as a feed.
#[derive(Debug, PartialEq, Eq)]
pub enum ParseError {
    /// The document is malformed; the reader's message.
    Parse(String),
    /// The document ended before the named element was found.
    UnexpectedEof(String),
}

/// What a [`ParseError`] holds.
pub enum ParseErrorView {
    Parse(Seq<char>),
    UnexpectedEof(Seq<char>),
}

impl View for ParseError {
    type V = ParseErrorView;

    open spec fn view(&self) -> ParseErrorView {
        match self {
            ParseError::Parse(message) => ParseErrorView::Parse(message@),
            ParseError::UnexpectedEof(what) => ParseErrorView::UnexpectedEof(what@),
        }
    }
}

/// A link given by attributes, by the relation it declares.
#[derive(Debug, PartialEq, Eq)]
pub enum AtomLink {
    /// The page that the feed or entry stands for.
    Alternate(String),
    /// The feed itself.
    Source(String),
    /// A hub that announces updates.
    Hub(String),
    /// Any other relation, kept with its name.
    Other(String, String),
}

/// What an [`AtomLink`] holds.
pub enum AtomLinkView {
    Alternate(Seq<char>),
    Source(Seq<char>),
    Hub(Seq<char>),
    Other(Seq<char>, Seq<char>),
}

impl View for AtomLink {
    type V = AtomLinkView;

    open spec fn view(&self) -> AtomLinkView {
        match self {
            AtomLink::Alternate(href) => AtomLinkView::Alternate(href@),
            AtomLink::Source(href) => AtomLinkView::Source(href@),
            AtomLink::Hub(href) => AtomLinkView::Hub(href@),
            AtomLink::Other(href, rel) => AtomLinkView::Other(href@, rel@),
        }
    }
}

/// The `href` and `rel` found among the attributes of a link so far.
pub struct LinkAttrs {
    pub href: Option<Seq<char>>,
    pub rel: Option<Seq<char>>,
}

/// Takes one attribute into account: a malformed one is an error, and so is
/// an `href` whose value cannot be unescaped; `rel` is kept as written.
pub open spec fn absorb_attr(acc: LinkAttrs, attr: XmlAttrView) -> Result<LinkAttrs, Seq<char>> {
    match attr {
        XmlAttrView::Malformed(message) => Err(message),
        XmlAttrView::Pair { key, value, unescaped } => if key == "href"@ {
            match unescaped {
                Ok(text) => Ok(LinkAttrs { href: Some(text), ..acc }),
                Err(message) => Err(message),
            }
        } else if key == "rel"@ {
            Ok(LinkAttrs { rel: Some(value), ..acc })
        } else {
            Ok(acc)
        },
    }
}

/// The `href` and `rel` among the first `n` attributes, the last of each
/// winning, or the first error among them.
pub open spec fn scan_attrs(attrs: Seq<XmlAttrView>, n: int) -> Result<LinkAttrs, Seq<char>>
    decreases n,
{
    if n <= 0 {
        Ok(LinkAttrs { href: None, rel: None })
    } else {
        match scan_attrs(attrs, n - 1) {
            Ok(acc) => absorb_attr(acc, attrs[n - 1]),
            Err(message) => Err(message),
        }
    }
}

/// The link that an `href` and a `rel` make: none without `href`; the
/// relation `alternate` where `rel` is missing.
pub open spec fn link_of(found: LinkAttrs) -> Option<AtomLinkView> {
    match found.href {
        None => None,
        Some(href) => match found.rel {
            None => Some(AtomLinkView::Alternate(href)),
            Some(rel) => if rel == "alternate"@ {
                Some(AtomLinkView::Alternate(href))
            } else if rel == "self"@ {
                Some(AtomLinkView::Source(href))
            } else if rel == "hub"@ {
                Some(AtomLinkView::Hub(href))
            } else {
                Some(AtomLinkView::Other(href, rel))
            },
        },
    }
}

/// The link that the attributes of a tag give.
pub open spec fn spec_atom_link(attrs: Seq<XmlAttrView>) -> Result<
    Option<AtomLinkView>,
    Seq<char>,
> {
    match scan_attrs(attrs, attrs.len() as int) {
        Ok(found) => Ok(link_of(found)),
        Err(message) => Err(message),
    }
}

/// The view of the outcome of reading a link.
pub open spec fn link_result(r: Result<Option<AtomLink>, String>) -> Result<
    Option<AtomLinkView>,
    Seq<char>,
> {
    match r {
        Ok(Some(link)) => Ok(Some(link@)),
        Ok(None) => Ok(None),
        Err(message) => Err(message@),
    }
}

/// Reads the link that the attributes of a tag give.
pub fn parse_atom_link(attrs: &Vec<XmlAttr>) -> (r: Result<Option<AtomLink>, String>)
    ensures
        link_result(r) == spec_atom_link(attr_views(attrs@)),
{
    let mut href: Option<String> = None;
    let mut rel: Option<String> = None;
    let mut i: usize = 0;
    while i < attrs.len()
        invariant
            i <= attrs.len(),
            scan_attrs(attr_views(attrs@), i as int) == Ok::<LinkAttrs, Seq<char>>(
                LinkAttrs { href: opt_text(href), rel: opt_text(rel) },
            ),
        decreases attrs.len() - i,
    {
        proof {
            assert(attr_views(attrs@)[i as int] == attrs[i as int]@);
        }
        match &attrs[i] {
            XmlAttr::Malformed(message) => {
                proof {
                    lemma_scan_attrs_err(attr_views(attrs@), i + 1);
                }
                return Err(message.clone());
            },
            XmlAttr::Pair { key, value, unescaped } => {
                if text_eq(key.as_str(), "href") {
                    match unescaped {
                        Ok(text) => {
                            href = Some(text.clone());
                        },
                        Err(message) => {
                            proof {
                                lemma_scan_attrs_err(attr_views(attrs@), i + 1);
                            }
                            return Err(message.clone());
                        },
                    }
                } else if text_eq(key.as_str(), "rel") {
                    rel = Some(value.clone());
                }
            },
        }
        i = i + 1;
    }
    match href {
        None => Ok(None),
        Some(href) => match rel {
            None => Ok(Some(AtomLink::Alternate(href))),
            Some(rel) => {
                if text_eq(rel.as_str(), "alternate") {
                    Ok(Some(AtomLink::Alternate(href)))
                } else if text_eq(rel.as_str(), "self") {
                    Ok(Some(AtomLink::Source(href)))
                } else if text_eq(rel.as_str(), "hub") {
                    Ok(Some(AtomLink::Hub(href)))
                } else {
                    Ok(Some(AtomLink::Other(href, rel)))
                }
            },
        },
    }
}

/// An error among the first `n` attributes is the outcome for all of them.
proof fn lemma_scan_attrs_err(attrs: Seq<XmlAttrView>, n: int)
    requires
        0 <= n <= attrs.len(),
        scan_attrs(attrs, n) is Err,
    ensures
        scan_attrs(attrs, attrs.len() as int) == scan_attrs(attrs, n),
    decreases attrs.len() - n,
{
    if n < attrs.len() {
        lemma_scan_attrs_err(attrs, n + 1);
    }
}

/// The event at a position; `None` at and beyond the end of the document.
pub open spec fn event_at(items: Seq<XmlItemView>, pos: int) -> Option<XmlItemView> {
    if 0 <= pos < items.len() {
        Some(items[pos])
    } else {
        None
    }
}

/// Where the element ends that was opened before `pos`, with `depth`
/// elements open at `pos`: behind the closing tag that brings the depth to
/// zero, or at the end of the document. The first error on the way is the
/// outcome.
pub open spec fn spec_skip(items: Seq<XmlItemView>, pos: int, depth: nat) -> Result<
    int,
    Seq<char>,
>
    decreases items.len() - pos,
{
    match event_at(items, pos) {
        None => Ok(pos),
        Some(XmlItemView::Start(_)) => spec_skip(items, pos + 1, depth + 1),
        Some(XmlItemView::End) => if depth <= 1 {
            Ok(pos + 1)
        } else {
            spec_skip(items, pos + 1, (depth - 1) as nat)
        },
        Some(XmlItemView::Failed(message)) => Err(message),
        Some(_) => spec_skip(items, pos + 1, depth),
    }
}

/// The view of a position or an error message.
pub open spec fn pos_result(r: Result<usize, String>) -> Result<int, Seq<char>> {
    match r {
        Ok(pos) => Ok(pos as int),
        Err(message) => Err(message@),
    }
}

/// Skips the element that was opened before `start`. Returns the position
/// behind its closing tag.
pub fn skip_element(items: &Vec<XmlItem>, start: usize) -> (r: Result<usize, String>)
    requires
        start <= items.len(),
    ensures
        pos_result(r) == spec_skip(xml_views(items@), start as int, 1),
        r is Ok ==> start <= r->Ok_0 <= items.len(),
{
    let ghost views = xml_views(items@);
    let mut pos: usize = start;
    let mut depth: u128 = 1;
    while pos < items.len()
        invariant
            start <= pos <= items.len(),
            views == xml_views(items@),
            1 <= depth <= pos - start + 1,
            spec_skip(views, pos as int, depth as nat) == spec_skip(views, start as int, 1),
        decreases items.len() - pos,
    {
        proof {
            assert(views[pos as int] == items[pos as int]@);
        }
        match &items[pos] {
            XmlItem::Start(_) => {
                depth = depth + 1;
            },
            XmlItem::End => {
                if depth == 1 {
                    return Ok(pos + 1);
                }
                depth = depth - 1;
            },
            XmlItem::Failed(message) => {
                return Err(message.clone());
            },
            _ => {},
        }
        pos = pos + 1;
    }
    Ok(pos)
}

/// How often a feed says it is renewed.
#[derive(Debug, Clone, Copy, PartialEq, Eq)]
pub enum SyPeriod {
    Hourly,
    Daily,
    Weekly,
    Monthly,
    Yearly,
}

/// The period that a text names.
pub open spec fn spec_period(text: Seq<char>) -> Option<SyPeriod> {
    if text == "hourly"@ {
        Some(SyPeriod::Hourly)
    } else if text == "daily"@ {
        Some(SyPeriod::Daily)
    } else if text == "weekly"@ {
        Some(SyPeriod::Weekly)
    } else if text == "monthly"@ {
        Some(SyPeriod::Monthly)
    } else if text == "yearly"@ {
        Some(SyPeriod::Yearly)
    } else {
        None
    }
}

/// Reads the name of a period.
pub fn parse_period(text: &str) -> (r: Option<SyPeriod>)
    ensures
        r == spec_period(text@),
{
    if text_eq(text, "hourly") {
        Some(SyPeriod::Hourly)
    } else if text_eq(text, "daily") {
        Some(SyPeriod::Daily)
    } else if text_eq(text, "weekly") {
        Some(SyPeriod::Weekly)
    } else if text_eq(text, "monthly") {
        Some(SyPeriod::Monthly)
    } else if text_eq(text, "yearly") {
        Some(SyPeriod::Yearly)
    } else {
        None
    }
}

/// The minutes of a period.
pub open spec fn period_minutes(period: SyPeriod) -> u32 {
    match period {
        SyPeriod::Hourly => 60,
        SyPeriod::Daily => 1440,
        SyPeriod::Weekly => 10080,
        SyPeriod::Monthly => 43200,
        SyPeriod::Yearly => 525600,
    }
}

/// The polling interval in minutes that a period and a frequency give: the
/// period divided by the frequency, which counts as one where it is missing
/// or zero. None without a period.
pub open spec fn derived_ttl(period: Option<SyPeriod>, freq: Option<u32>) -> Option<u32> {
    match period {
        None => None,
        Some(p) => {
            let f: u32 = match freq {
                Some(f) => if f == 0 {
                    1u32
                } else {
                    f
                },
                None => 1u32,
            };
            Some((period_minutes(p) / f) as u32)
        },
    }
}

/// Derives the polling interval from the hints of the syndication module.
pub fn derive_ttl(period: Option<SyPeriod>, freq: Option<u32>) -> (r: Option<u32>)
    ensures
        r == derived_ttl(period, freq),
{
    match period {
        None => None,
        Some(p) => {
            let f: u32 = match freq {
                Some(f) => if f == 0 {
                    1
                } else {
                    f
                },
                None => 1,
            };
            let minutes: u32 = match p {
                SyPeriod::Hourly => 60,
                SyPeriod::Daily => 1440,
                SyPeriod::Weekly => 10080,
                SyPeriod::Monthly => 43200,
                SyPeriod::Yearly => 525600,
            };
            Some(minutes / f)
        },
    }
}

/// What the content of an element is read as, and what was found so far.
#[derive(Debug)]
pub enum Content {
    /// Text: the last character data or CDATA section.
    Text(Option<String>),
    /// A number: what the last character data stands for.
    Number(Option<u32>),
    /// A period: the last character data that names one.
    Period(Option<SyPeriod>),
}

/// What a [`Content`] holds.
pub enum ContentView {
    Text(Option<Seq<char>>),
    Number(Option<u32>),
    Period(Option<SyPeriod>),
}

impl View for Content {
    type V = ContentView;

    open spec fn view(&self) -> ContentView {
        match self {
            Content::Text(text) => ContentView::Text(opt_text(*text)),
            Content::Number(number) => ContentView::Number(*number),
            Content::Period(period) => ContentView::Period(*period),
        }
    }
}

impl ContentView {
    /// The text that was found, if text was read.
    pub open spec fn text(self) -> Option<Seq<char>> {
        match self {
            ContentView::Text(text) => text,
            _ => None,
        }
    }

    /// The number that was found, if a number was read.
    pub open spec fn number(self) -> Option<u32> {
        match self {
            ContentView::Number(number) => number,
            _ => None,
        }
    }

    /// The period that was found, if a period was read.
    pub open spec fn period(self) -> Option<SyPeriod> {
        match self {
            ContentView::Period(period) => period,
            _ => None,
        }
    }
}

/// Takes character data into account. Text takes it with its entities
/// replaced, which may fail; a number takes what it stands for as written;
/// a period takes it where it names one.
pub open spec fn absorb_text(
    acc: ContentView,
    raw: Seq<char>,
    unescaped: Result<Seq<char>, Seq<char>>,
) -> Result<ContentView, Seq<char>> {
    match acc {
        ContentView::Text(_) => match unescaped {
            Ok(text) => Ok(ContentView::Text(Some(text))),
            Err(message) => Err(message),
        },
        ContentView::Number(_) => Ok(ContentView::Number(spec_parse_u32(raw))),
        ContentView::Period(period) => match spec_period(raw) {
            Some(named) => Ok(ContentView::Period(Some(named))),
            None => Ok(ContentView::Period(period)),
        },
    }
}

/// Takes a CDATA section into account: text takes it, the others pass it by.
pub open spec fn absorb_cdata(acc: ContentView, text: Seq<char>) -> ContentView {
    match acc {
        ContentView::Text(_) => ContentView::Text(Some(text)),
        other => other,
    }
}

/// The content of the element that was opened before `pos`, and the
/// position behind its closing tag. Elements inside it are passed over.
pub open spec fn spec_content(items: Seq<XmlItemView>, pos: int, acc: ContentView) -> Result<
    (ContentView, int),
    Seq<char>,
>
    decreases items.len() - pos,
{
    match event_at(items, pos) {
        None => Ok((acc, pos)),
        Some(XmlItemView::Start(_)) => match spec_skip(items, pos + 1, 1) {
            Ok(next) => if pos < next <= items.len() {
                spec_content(items, next, acc)
            } else {
                Ok((acc, pos))
            },
            Err(message) => Err(message),
        },
        Some(XmlItemView::Text { raw, unescaped }) => match absorb_text(acc, raw, unescaped) {
            Ok(taken) => spec_content(items, pos + 1, taken),
            Err(message) => Err(message),
        },
        Some(XmlItemView::CData(text)) => spec_content(items, pos + 1, absorb_cdata(acc, text)),
        Some(XmlItemView::End) => Ok((acc, pos + 1)),
        Some(XmlItemView::Failed(message)) => Err(message),
        Some(_) => spec_content(items, pos + 1, acc),
    }
}

/// The view of a content with a position, or an error message.
pub open spec fn content_result(r: Result<(Content, usize), String>) -> Result<
    (ContentView, int),
    Seq<char>,
> {
    match r {
        Ok((content, pos)) => Ok((content@, pos as int)),
        Err(message) => Err(message@),
    }
}

/// Reads the content of the element that was opened before `start`, as
/// `init` says. Returns what was found and the position behind the closing
/// tag.
pub fn read_content(items: &Vec<XmlItem>, start: usize, init: Content) -> (r: Result<
    (Content, usize),
    String,
>)
    requires
        start <= items.len(),
    ensures
        content_result(r) == spec_content(xml_views(items@), start as int, init@),
        r is Ok ==> start <= r->Ok_0.1 <= items.len(),
{
    let ghost views = xml_views(items@);
    let ghost goal = spec_content(views, start as int, init@);
    let mut pos: usize = start;
    let mut acc = init;
    while pos < items.len()
        invariant
            start <= pos <= items.len(),
            views == xml_views(items@),
            goal == spec_content(xml_views(items@), start as int, init@),
            spec_content(views, pos as int, acc@) == goal,
        decreases items.len() - pos,
    {
        proof {
            assert(views[pos as int] == items[pos as int]@);
        }
        match &items[pos] {
            XmlItem::Start(_) => {
                match skip_element(items, pos + 1) {
                    Ok(next) => {
                        pos = next;
                    },
                    Err(message) => {
                        return Err(message);
                    },
                }
            },
            XmlItem::Text { raw, unescaped } => {
                match acc {
                    Content::Text(_) => {
                        match unescaped {
                            Ok(text) => {
                                acc = Content::Text(Some(text.clone()));
                            },
                            Err(message) => {
                                return Err(message.clone());
                            },
                        }
                    },
                    Content::Number(_) => {
                        acc = Content::Number(parse_u32(raw.as_str()));
                    },
                    Content::Period(period) => {
                        match parse_period(raw.as_str()) {
                            Some(named) => {
                                acc = Content::Period(Some(named));
                            },
                            None => {
                                acc = Content::Period(period);
                            },
                        }
                    },
                }
                pos = pos + 1;
            },
            XmlItem::CData(text) => {
                match acc {
                    Content::Text(_) => {
                        acc = Content::Text(Some(text.clone()));
                    },
                    other => {
                        acc = other;
                    },
                }
                pos = pos + 1;
            },
            XmlItem::End => {
                return Ok((acc, pos + 1));
            },
            XmlItem::Failed(message) => {
                return Err(message.clone());
            },
            _ => {
                pos = pos + 1;
            },
        }
    }
    Ok((acc, pos))
}

/// An item without title, link and id.
pub open spec fn empty_item() -> ItemView {
    ItemView { title: None, link: None, id: None }
}

/// The item with the link that the attributes give, where they give one of
/// the relation `alternate`; the first error in the attributes otherwise.
pub open spec fn item_with_atom_link(item: ItemView, attrs: Seq<XmlAttrView>) -> Result<
    ItemView,
    Seq<char>,
> {
    match spec_atom_link(attrs) {
        Ok(Some(AtomLinkView::Alternate(href))) => Ok(ItemView { link: Some(href), ..item }),
        Ok(_) => Ok(item),
        Err(message) => Err(message),
    }
}

/// The entry that was opened before `pos`, and the position behind its
/// closing tag. `title`, `id` and `guid` give their text; `link` gives its
/// text or, without text, its `href`; other elements are passed over.
pub open spec fn spec_item(items: Seq<XmlItemView>, pos: int, item: ItemView) -> Result<
    (ItemView, int),
    Seq<char>,
>
    decreases items.len() - pos,
{
    match event_at(items, pos) {
        None => Ok((item, pos)),
        Some(XmlItemView::Empty(tag)) => if tag.name == "link"@ {
            match item_with_atom_link(item, tag.attrs) {
                Ok(linked) => spec_item(items, pos + 1, linked),
                Err(message) => Err(message),
            }
        } else {
            spec_item(items, pos + 1, item)
        },
        Some(XmlItemView::Start(tag)) => if tag.name == "title"@ || tag.name == "link"@
            || tag.name == "id"@ || tag.name == "guid"@ {
            match spec_content(items, pos + 1, ContentView::Text(None)) {
                Ok((content, next)) => if pos < next <= items.len() {
                    if tag.name == "title"@ {
                        spec_item(items, next, ItemView { title: content.text(), ..item })
                    } else if tag.name == "link"@ {
                        match content.text() {
                            Some(link) => spec_item(
                                items,
                                next,
                                ItemView { link: Some(link), ..item },
                            ),
                            None => match item_with_atom_link(item, tag.attrs) {
                                Ok(linked) => spec_item(items, next, linked),
                                Err(message) => Err(message),
                            },
                        }
                    } else {
                        spec_item(items, next, ItemView { id: content.text(), ..item })
                    }
                } else {
                    Ok((item, pos))
                },
                Err(message) => Err(message),
            }
        } else {
            match spec_skip(items, pos + 1, 1) {
                Ok(next) => if pos < next <= items.len() {
                    spec_item(items, next, item)
                } else {
                    Ok((item, pos))
                },
                Err(message) => Err(message),
            }
        },
        Some(XmlItemView::End) => Ok((item, pos + 1)),
        Some(XmlItemView::Failed(message)) => Err(message),
        Some(_) => spec_item(items, pos + 1, item),
    }
}

/// The view of an item with a position, or an error message.
pub open spec fn item_result(r: Result<(Item, usize), String>) -> Result<
    (ItemView, int),
    Seq<char>,
> {
    match r {
        Ok((item, pos)) => Ok((item@, pos as int)),
        Err(message) => Err(message@),
    }
}

/// The text of a content that was read as text.
fn content_text(content: Content) -> (r: Option<String>)
    ensures
        opt_text(r) == content@.text(),
{
    match content {
        Content::Text(text) => text,
        _ => None,
    }
}

/// The number of a content that was read as a number.
fn content_number(content: Content) -> (r: Option<u32>)
    ensures
        r == content@.number(),
{
    match content {
        Content::Number(number) => number,
        _ => None,
    }
}

/// The period of a content that was read as a period.
fn content_period(content: Content) -> (r: Option<SyPeriod>)
    ensures
        r == content@.period(),
{
    match content {
        Content::Period(period) => period,
        _ => None,
    }
}

/// The `href` of the link that the attributes give, where its relation is
/// `alternate`.
fn alternate_href(attrs: &Vec<XmlAttr>) -> (r: Result<Option<String>, String>)
    ensures
        match r {
            Ok(Some(href)) => spec_atom_link(attr_views(attrs@)) == Ok::<
                Option<AtomLinkView>,
                Seq<char>,
            >(Some(AtomLinkView::Alternate(href@))),
            Ok(None) => spec_atom_link(attr_views(attrs@)) is Ok && !(spec_atom_link(
                attr_views(attrs@),
            ) matches Ok(Some(AtomLinkView::Alternate(_)))),
            Err(message) => spec_atom_link(attr_views(attrs@)) == Err::<
                Option<AtomLinkView>,
                Seq<char>,
            >(message@),
        },
{
    match parse_atom_link(attrs) {
        Ok(Some(AtomLink::Alternate(href))) => Ok(Some(href)),
        Ok(_) => Ok(None),
        Err(message) => Err(message),
    }
}

/// Reads the entry that was opened before `start`. Returns it with the
/// position behind its closing tag.
pub fn read_item(items: &Vec<XmlItem>, start: usize) -> (r: Result<(Item, usize), String>)
    requires
        start <= items.len(),
    ensures
        item_result(r) == spec_item(xml_views(items@), start as int, empty_item()),
        r is Ok ==> start <= r->Ok_0.1 <= items.len(),
{
    let ghost views = xml_views(items@);
    let ghost goal = spec_item(views, start as int, empty_item());
    let mut pos: usize = start;
    let mut item = Item { title: None, link: None, id: None };
    while pos < items.len()
        invariant
            start <= pos <= items.len(),
            views == xml_views(items@),
            goal == spec_item(xml_views(items@), start as int, empty_item()),
            spec_item(views, pos as int, item@) == goal,
        decreases items.len() - pos,
    {
        proof {
            assert(views[pos as int] == items[pos as int]@);
        }
        match &items[pos] {
            XmlItem::Empty(tag) => {
                if text_eq(tag.name.as_str(), "link") {
                    match alternate_href(&tag.attrs) {
                        Ok(Some(href)) => {
                            item.link = Some(href);
                        },
                        Ok(None) => {},
                        Err(message) => {
                            return Err(message);
                        },
                    }
                }
                pos = pos + 1;
            },
            XmlItem::Start(tag) => {
                let is_title = text_eq(tag.name.as_str(), "title");
                let is_link = text_eq(tag.name.as_str(), "link");
                let is_id = text_eq(tag.name.as_str(), "id") || text_eq(tag.name.as_str(), "guid");
                if is_title || is_link || is_id {
                    match read_content(items, pos + 1, Content::Text(None)) {
                        Ok((content, next)) => {
                            let text = content_text(content);
                            if is_title {
                                item.title = text;
                            } else if is_link {
                                match text {
                                    Some(link) => {
                                        item.link = Some(link);
                                    },
                                    None => {
                                        match alternate_href(&tag.attrs) {
                                            Ok(Some(href)) => {
                                                item.link = Some(href);
                                            },
                                            Ok(None) => {},
                                            Err(message) => {
                                                return Err(message);
                                            },
                                        }
                                    },
                                }
                            } else {
                                item.id = text;
                            }
                            pos = next;
                        },
                        Err(message) => {
                            return Err(message);
                        },
                    }
                } else {
                    match skip_element(items, pos + 1) {
                        Ok(next) => {
                            pos = next;
                        },
                        Err(message) => {
                            return Err(message);
                        },
                    }
                }
            },
            XmlItem::End => {
                return Ok((item, pos + 1));
            },
            XmlItem::Failed(message) => {
                return Err(message.clone());
            },
            _ => {
                pos = pos + 1;
            },
        }
    }
    Ok((item, pos))
}

/// A feed while it is read: what was found, whether the head of an RSS 1.0
/// document is open, and the hints of the syndication module.
#[derive(Debug)]
pub struct FeedBuilder {
    pub rss: Rss,
    pub head: bool,
    pub period: Option<SyPeriod>,
    pub freq: Option<u32>,
}

/// What a [`FeedBuilder`] holds.
pub struct FeedBuilderView {
    pub rss: RssView,
    pub head: bool,
    pub period: Option<SyPeriod>,
    pub freq: Option<u32>,
}

impl View for FeedBuilder {
    type V = FeedBuilderView;

    open spec fn view(&self) -> FeedBuilderView {
        FeedBuilderView { rss: self.rss@, head: self.head, period: self.period, freq: self.freq }
    }
}

impl FeedBuilderView {
    /// Nothing found yet.
    pub open spec fn start() -> FeedBuilderView {
        FeedBuilderView {
            rss: RssView {
                title: Seq::empty(),
                link: Seq::empty(),
                source: None,
                ttl: None,
                items: Seq::empty(),
            },
            head: false,
            period: None,
            freq: None,
        }
    }

    /// The feed that was read: without an interval of its own it takes the
    /// one that the hints of the syndication module give.
    pub open spec fn finish(self) -> RssView {
        if self.rss.ttl is None {
            RssView { ttl: derived_ttl(self.period, self.freq), ..self.rss }
        } else {
            self.rss
        }
    }
}

/// The feed with the link that the attributes give: `alternate` is the link
/// of the site, `self` the link of the feed; other relations change nothing.
pub open spec fn feed_with_atom_link(rss: RssView, attrs: Seq<XmlAttrView>) -> Result<
    RssView,
    Seq<char>,
> {
    match spec_atom_link(attrs) {
        Ok(Some(AtomLinkView::Alternate(href))) => Ok(RssView { link: href, ..rss }),
        Ok(Some(AtomLinkView::Source(href))) => Ok(RssView { source: Some(href), ..rss }),
        Ok(_) => Ok(rss),
        Err(message) => Err(message),
    }
}

/// What the child element opened at `pos` with the tag `tag` adds to a
/// feed, and the position behind that element.
pub open spec fn spec_feed_child(
    items: Seq<XmlItemView>,
    pos: int,
    tag: XmlTagView,
    st: FeedBuilderView,
) -> Result<(FeedBuilderView, int), Seq<char>> {
    let name = tag.local_name;
    if name == "channel"@ {
        Ok((FeedBuilderView { head: true, ..st }, pos + 1))
    } else if name == "title"@ || name == "link"@ {
        match spec_content(items, pos + 1, ContentView::Text(None)) {
            Ok((content, next)) => if name == "title"@ {
                match content.text() {
                    Some(title) => Ok(
                        (FeedBuilderView { rss: RssView { title, ..st.rss }, ..st }, next),
                    ),
                    None => Ok((st, next)),
                }
            } else {
                match content.text() {
                    Some(link) => Ok(
                        (FeedBuilderView { rss: RssView { link, ..st.rss }, ..st }, next),
                    ),
                    None => match feed_with_atom_link(st.rss, tag.attrs) {
                        Ok(rss) => Ok((FeedBuilderView { rss, ..st }, next)),
                        Err(message) => Err(message),
                    },
                }
            },
            Err(message) => Err(message),
        }
    } else if name == "item"@ || name == "entry"@ {
        match spec_item(items, pos + 1, empty_item()) {
            Ok((item, next)) => Ok(
                (
                    FeedBuilderView {
                        rss: RssView { items: st.rss.items.push(item), ..st.rss },
                        ..st
                    },
                    next,
                ),
            ),
            Err(message) => Err(message),
        }
    } else if name == "ttl"@ || name == "updateFrequency"@ {
        match spec_content(items, pos + 1, ContentView::Number(None)) {
            Ok((content, next)) => if name == "ttl"@ {
                Ok(
                    (
                        FeedBuilderView { rss: RssView { ttl: content.number(), ..st.rss }, ..st },
                        next,
                    ),
                )
            } else {
                Ok((FeedBuilderView { freq: content.number(), ..st }, next))
            },
            Err(message) => Err(message),
        }
    } else if name == "updatePeriod"@ {
        match spec_content(items, pos + 1, ContentView::Period(None)) {
            Ok((content, next)) => Ok((FeedBuilderView { period: content.period(), ..st }, next)),
            Err(message) => Err(message),
        }
    } else {
        match spec_skip(items, pos + 1, 1) {
            Ok(next) => Ok((st, next)),
            Err(message) => Err(message),
        }
    }
}

/// The feed whose element was opened before `pos`. Its children add to it
/// until the element closes or the document ends; the closing tag of the
/// head of an RSS 1.0 document does not end it.
pub open spec fn spec_feed(items: Seq<XmlItemView>, pos: int, st: FeedBuilderView) -> Result<
    RssView,
    Seq<char>,
>
    decreases items.len() - pos,
{
    match event_at(items, pos) {
        None => Ok(st.finish()),
        Some(XmlItemView::Empty(tag)) => if tag.local_name == "link"@ {
            match feed_with_atom_link(st.rss, tag.attrs) {
                Ok(rss) => spec_feed(items, pos + 1, FeedBuilderView { rss, ..st }),
                Err(message) => Err(message),
            }
        } else {
            spec_feed(items, pos + 1, st)
        },
        Some(XmlItemView::Start(tag)) => match spec_feed_child(items, pos, tag, st) {
            Ok((grown, next)) => if pos < next <= items.len() {
                spec_feed(items, next, grown)
            } else {
                Ok(st.finish())
            },
            Err(message) => Err(message),
        },
        Some(XmlItemView::End) => if st.head {
            spec_feed(items, pos + 1, FeedBuilderView { head: false, ..st })
        } else {
            Ok(st.finish())
        },
        Some(XmlItemView::Failed(message)) => Err(message),
        Some(_) => spec_feed(items, pos + 1, st),
    }
}

/// The feed of a document from `pos` on: the element `channel`, `feed` or
/// `rdf:RDF` that comes first, `rss` being entered and any other element
/// passed over. A document that ends before is an error.
pub open spec fn spec_parse_from(items: Seq<XmlItemView>, pos: int) -> Result<
    RssView,
    ParseErrorView,
>
    decreases items.len() - pos,
{
    match event_at(items, pos) {
        None => Err(ParseErrorView::UnexpectedEof("feed"@)),
        Some(XmlItemView::Start(tag)) => if tag.name == "rss"@ {
            spec_parse_from(items, pos + 1)
        } else if tag.name == "channel"@ || tag.name == "feed"@ || tag.name == "rdf:RDF"@ {
            match spec_feed(items, pos + 1, FeedBuilderView::start()) {
                Ok(rss) => Ok(rss),
                Err(message) => Err(ParseErrorView::Parse(message)),
            }
        } else {
            match spec_skip(items, pos + 1, 1) {
                Ok(next) => if pos < next <= items.len() {
                    spec_parse_from(items, next)
                } else {
                    Err(ParseErrorView::UnexpectedEof("feed"@))
                },
                Err(message) => Err(ParseErrorView::Parse(message)),
            }
        },
        Some(XmlItemView::Failed(message)) => Err(ParseErrorView::Parse(message)),
        Some(_) => spec_parse_from(items, pos + 1),
    }
}

/// The feed that the events of a document give.
pub open spec fn spec_parse_items(items: Seq<XmlItemView>) -> Result<RssView, ParseErrorView> {
    spec_parse_from(items, 0)
}

/// The feed that the bytes of a document give.
pub open spec fn spec_parse(bytes: Seq<u8>) -> Result<RssView, ParseErrorView> {
    spec_parse_items(xml_items(bytes))
}

/// The view of a builder with a position, or an error message.
pub open spec fn child_result(r: Result<(FeedBuilder, usize), String>) -> Result<
    (FeedBuilderView, int),
    Seq<char>,
> {
    match r {
        Ok((builder, pos)) => Ok((builder@, pos as int)),
        Err(message) => Err(message@),
    }
}

/// The view of a feed or an error message.
pub open spec fn feed_result(r: Result<Rss, String>) -> Result<RssView, Seq<char>> {
    match r {
        Ok(rss) => Ok(rss@),
        Err(message) => Err(message@),
    }
}

/// The view of a feed or a parse error.
pub open spec fn parse_result(r: Result<Rss, ParseError>) -> Result<RssView, ParseErrorView> {
    match r {
        Ok(rss) => Ok(rss@),
        Err(error) => Err(error@),
    }
}

/// Applies to a feed the link that the attributes give.
fn apply_atom_link(rss: Rss, attrs: &Vec<XmlAttr>) -> (r: Result<Rss, String>)
    ensures
        feed_result(r) == feed_with_atom_link(rss@, attr_views(attrs@)),
{
    let mut rss = rss;
    match parse_atom_link(attrs) {
        Ok(Some(AtomLink::Alternate(href))) => {
            rss.link = href;
            Ok(rss)
        },
        Ok(Some(AtomLink::Source(href))) => {
            rss.source = Some(href);
            Ok(rss)
        },
        Ok(_) => Ok(rss),
        Err(message) => Err(message),
    }
}

/// Reads the child element opened at `pos` into the feed. Returns the feed
/// with the position behind that element.
pub fn read_feed_child(items: &Vec<XmlItem>, pos: usize, tag: &XmlTag, builder: FeedBuilder) -> (r:
    Result<(FeedBuilder, usize), String>)
    requires
        pos < items.len(),
    ensures
        child_result(r) == spec_feed_child(xml_views(items@), pos as int, tag@, builder@),
        r is Ok ==> pos < r->Ok_0.1 <= items.len(),
{
    let mut builder = builder;
    let name = tag.local_name.as_str();
    if text_eq(name, "channel") {
        builder.head = true;
        Ok((builder, pos + 1))
    } else if text_eq(name, "title") || text_eq(name, "link") {
        match read_content(items, pos + 1, Content::Text(None)) {
            Ok((content, next)) => {
                let text = content_text(content);
                if text_eq(name, "title") {
                    match text {
                        Some(title) => {
                            builder.rss.title = title;
                        },
                        None => {},
                    }
                    Ok((builder, next))
                } else {
                    match text {
                        Some(link) => {
                            builder.rss.link = link;
                            Ok((builder, next))
                        },
                        None => {
                            let FeedBuilder { rss, head, period, freq } = builder;
                            match apply_atom_link(rss, &tag.attrs) {
                                Ok(rss) => Ok((FeedBuilder { rss, head, period, freq }, next)),
                                Err(message) => Err(message),
                            }
                        },
                    }
                }
            },
            Err(message) => Err(message),
        }
    } else if text_eq(name, "item") || text_eq(name, "entry") {
        match read_item(items, pos + 1) {
            Ok((item, next)) => {
                let ghost before = item_views(builder.rss.items@);
                builder.rss.items.push(item);
                proof {
                    assert(item_views(builder.rss.items@) =~= before.push(item@));
                }
                Ok((builder, next))
            },
            Err(message) => Err(message),
        }
    } else if text_eq(name, "ttl") || text_eq(name, "updateFrequency") {
        match read_content(items, pos + 1, Content::Number(None)) {
            Ok((content, next)) => {
                let number = content_number(content);
                if text_eq(name, "ttl") {
                    builder.rss.ttl = number;
                } else {
                    builder.freq = number;
                }
                Ok((builder, next))
            },
            Err(message) => Err(message),
        }
    } else if text_eq(name, "updatePeriod") {
        match read_content(items, pos + 1, Content::Period(None)) {
            Ok((content, next)) => {
                builder.period = content_period(content);
                Ok((builder, next))
            },
            Err(message) => Err(message),
        }
    } else {
        match skip_element(items, pos + 1) {
            Ok(next) => Ok((builder, next)),
            Err(message) => Err(message),
        }
    }
}

/// Reads the feed whose element was opened before `start`.
pub fn read_feed(items: &Vec<XmlItem>, start: usize) -> (r: Result<Rss, String>)
    requires
        start <= items.len(),
    ensures
        feed_result(r) == spec_feed(xml_views(items@), start as int, FeedBuilderView::start()),
{
    let ghost views = xml_views(items@);
    let ghost goal = spec_feed(views, start as int, FeedBuilderView::start());
    let mut pos: usize = start;
    let mut builder = FeedBuilder {
        rss: Rss {
            title: String::new(),
            link: String::new(),
            source: None,
            ttl: None,
            items: Vec::new(),
        },
        head: false,
        period: None,
        freq: None,
    };
    proof {
        assert(builder@.rss.items =~= Seq::empty());
        assert(builder@ == FeedBuilderView::start());
    }
    while pos < items.len()
        invariant
            start <= pos <= items.len(),
            views == xml_views(items@),
            goal == spec_feed(xml_views(items@), start as int, FeedBuilderView::start()),
            spec_feed(views, pos as int, builder@) == goal,
        decreases items.len() - pos,
    {
        proof {
            assert(views[pos as int] == items[pos as int]@);
        }
        match &items[pos] {
            XmlItem::Empty(tag) => {
                if text_eq(tag.local_name.as_str(), "link") {
                    let FeedBuilder { rss, head, period, freq } = builder;
                    match apply_atom_link(rss, &tag.attrs) {
                        Ok(rss) => {
                            builder = FeedBuilder { rss, head, period, freq };
                        },
                        Err(message) => {
                            return Err(message);
                        },
                    }
                }
                pos = pos + 1;
            },
            XmlItem::Start(tag) => {
                match read_feed_child(items, pos, tag, builder) {
                    Ok((grown, next)) => {
                        builder = grown;
                        pos = next;
                    },
                    Err(message) => {
                        return Err(message);
                    },
                }
            },
            XmlItem::End => {
                if builder.head {
                    builder.head = false;
                    pos = pos + 1;
                } else {
                    return Ok(finish_feed(builder));
                }
            },
            XmlItem::Failed(message) => {
                return Err(message.clone());
            },
            _ => {
                pos = pos + 1;
            },
        }
    }
    Ok(finish_feed(builder))
}

/// Closes a feed that was read.
fn finish_feed(builder: FeedBuilder) -> (rss: Rss)
    ensures
        rss@ == builder@.finish(),
{
    let mut rss = builder.rss;
    if rss.ttl.is_none() {
        rss.ttl = derive_ttl(builder.period, builder.freq);
    }
    rss
}

/// Reads a feed from the events of a document.
pub fn parse_items(items: &Vec<XmlItem>) -> (r: Result<Rss, ParseError>)
    ensures
        parse_result(r) == spec_parse_items(xml_views(items@)),
{
    let ghost views = xml_views(items@);
    let mut pos: usize = 0;
    while pos < items.len()
        invariant
            pos <= items.len(),
            views == xml_views(items@),
            spec_parse_from(views, pos as int) == spec_parse_items(xml_views(items@)),
        decreases items.len() - pos,
    {
        proof {
            assert(views[pos as int] == items[pos as int]@);
        }
        match &items[pos] {
            XmlItem::Start(tag) => {
                let name = tag.name.as_str();
                if text_eq(name, "rss") {
                    pos = pos + 1;
                } else if text_eq(name, "channel") || text_eq(name, "feed") || text_eq(
                    name,
                    "rdf:RDF",
                ) {
                    return match read_feed(items, pos + 1) {
                        Ok(rss) => Ok(rss),
                        Err(message) => Err(ParseError::Parse(message)),
                    };
                } else {
                    match skip_element(items, pos + 1) {
                        Ok(next) => {
                            pos = next;
                        },
                        Err(message) => {
                            return Err(ParseError::Parse(message));
                        },
                    }
                }
            },
            XmlItem::Failed(message) => {
                return Err(ParseError::Parse(message.clone()));
            },
            _ => {
                pos = pos + 1;
            },
        }
    }
    Err(ParseError::UnexpectedEof("feed".to_owned()))
}

/// Reads a feed from the bytes of an XML document: RSS 0.9 to 2.0 or Atom.
pub fn parse(bytes: &[u8]) -> (r: Result<Rss, ParseError>)
    ensures
        parse_result(r) == spec_parse(bytes@),
{
    let items = read_items(bytes);
    parse_items(&items)
}

/// The first position from `from` on that holds a slash, or the length of
/// the text where none follows.
pub open spec fn run_end(s: Seq<char>, from: int) -> int
    decreases s.len() - from,
{
    if from < 0 || from >= s.len() || s[from] == '/' {
        from
    } else {
        run_end(s, from + 1)
    }
}

/// The length of the scheme that a link begins with, `http://` or
/// `https://`.
pub open spec fn scheme_len(link: Seq<char>) -> Option<int> {
    if spec_starts_with(link, "https://"@) {
        Some("https://"@.len() as int)
    } else if spec_starts_with(link, "http://"@) {
        Some("http://"@.len() as int)
    } else {
        None
    }
}

/// The host of a link with its scheme: `http://` or `https://` and the
/// characters up to the next slash, of which there is at least one. A link
/// of another form is its own host.
pub open spec fn feed_host(link: Seq<char>) -> Seq<char> {
    match scheme_len(link) {
        Some(n) => if run_end(link, n) > n {
            link.take(run_end(link, n))
        } else {
            link
        },
        None => link,
    }
}

/// A link made absolute: one that begins with two slashes gets the scheme
/// `http:`, one that begins with one slash gets the host before it.
pub open spec fn absolute_url(link: Seq<char>, host: Seq<char>) -> Seq<char> {
    if spec_starts_with(link, "//"@) {
        "http:"@ + link
    } else if spec_starts_with(link, "/"@) {
        host + link
    } else {
        link
    }
}

/// An item with its link made absolute.
pub open spec fn canonical_item(item: ItemView, host: Seq<char>) -> ItemView {
    ItemView {
        link: match item.link {
            Some(link) => Some(absolute_url(link, host)),
            None => None,
        },
        ..item
    }
}

/// A feed in canonical form for the link it was fetched from: the link of
/// its site is the host where it is empty or a single slash, and absolute
/// otherwise; the links of its items are absolute.
pub open spec fn canonical(rss: RssView, rss_link: Seq<char>) -> RssView {
    let host = feed_host(rss_link);
    RssView {
        link: if rss.link == ""@ || rss.link == "/"@ {
            host
        } else {
            absolute_url(rss.link, host)
        },
        items: rss.items.map_values(|i: ItemView| canonical_item(i, host)),
        ..rss
    }
}

/// The host of a link with its scheme.
pub fn host_of(rss_link: &str) -> (host: String)
    ensures
        host@ == feed_host(rss_link@),
{
    let chars = chars_of(rss_link);
    let scheme: usize = if starts_with(&chars, "https://") {
        chars_of("https://").len()
    } else if starts_with(&chars, "http://") {
        chars_of("http://").len()
    } else {
        return rss_link.to_owned();
    };
    let mut end: usize = scheme;
    while end < chars.len() && chars[end] != '/'
        invariant
            scheme <= end <= chars.len(),
            run_end(chars@, end as int) == run_end(chars@, scheme as int),
        decreases chars.len() - end,
    {
        end = end + 1;
    }
    if end > scheme {
        let host = string_of(&chars, 0, end);
        proof {
            assert(chars@.subrange(0, end as int) =~= chars@.take(end as int));
        }
        host
    } else {
        rss_link.to_owned()
    }
}

/// Makes a link absolute with the host of its feed.
pub fn url_relative_to_absolute(link: &mut String, host: &str)
    ensures
        final(link)@ == absolute_url(old(link)@, host@),
{
    let chars = chars_of(link.as_str());
    if starts_with(&chars, "//") {
        let mut s = "http:".to_owned();
        s.append(link.as_str());
        *link = s;
    } else if starts_with(&chars, "/") {
        let mut s = host.to_owned();
        s.append(link.as_str());
        *link = s;
    }
}

/// Brings a parsed feed into canonical form for the link it was fetched
/// from.
pub fn fix_relative_url(rss: Rss, rss_link: &str) -> (fixed: Rss)
    ensures
        fixed@ == canonical(rss@, rss_link@),
{
    let host = host_of(rss_link);
    let Rss { title, link, source, ttl, items } = rss;
    let mut link = link;
    if text_eq(link.as_str(), "") || text_eq(link.as_str(), "/") {
        link = host.clone();
    } else {
        url_relative_to_absolute(&mut link, host.as_str());
    }
    let mut fixed_items: Vec<Item> = Vec::new();
    let mut i: usize = 0;
    while i < items.len()
        invariant
            i <= items.len(),
            fixed_items.len() == i,
            forall|j: int|
                0 <= j < i ==> (#[trigger] fixed_items[j])@ == canonical_item(items[j]@, host@),
        decreases items.len() - i,
    {
        let mut item = items[i].clone();
        match item.link {
            Some(l) => {
                let mut l = l;
                url_relative_to_absolute(&mut l, host.as_str());
                item.link = Some(l);
            },
            None => {},
        }
        fixed_items.push(item);
        i = i + 1;
    }
    proof {
        assert(item_views(fixed_items@) =~= item_views(items@).map_values(
            |i: ItemView| canonical_item(i, host@),
        ));
    }
    Rss { title, link, source, ttl, items: fixed_items }
}

} // verus!
