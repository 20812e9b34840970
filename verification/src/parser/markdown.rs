//! The boundary to pulldown-cmark: a markdown document parsed into its event
//! stream, read event by event as plain values.

use vstd::prelude::*;
use pulldown_cmark::{html, Event, LinkType, Options, Parser, Tag, TagEnd};

verus! {

#[verifier::external_type_specification]
#[verifier::external_body]
pub struct ExEvent<'a>(Event<'a>);

/// What kind of event an event of the stream is.
#[derive(Clone, Copy, PartialEq, Eq, Debug)]
pub enum EventKind {
    /// The start of an element; its tag is `TagKind`.
    Start,
    /// The end of an element; its tag is `TagKind`.
    End,
    Text,
    Code,
    Html,
    InlineHtml,
    Rule,
    /// A task list checkbox, checked or not.
    TaskListMarker(bool),
    /// A math span, inline (`$..$`) or displayed (`$$..$$`).
    Math,
    /// Any other event (breaks, footnote references).
    Other,
}

/// The element that a start or end event opens or closes.
#[derive(Clone, Copy, PartialEq, Eq, Debug)]
pub enum TagKind {
    Paragraph,
    /// A heading of level 1 to 6.
    Heading(u8),
    BlockQuote,
    CodeBlock,
    /// A list; `true` for an ordered one.
    List(bool),
    Item,
    Table,
    TableHead,
    TableRow,
    TableCell,
    Emphasis,
    Strong,
    Strikethrough,
    Link,
    Image,
    /// Any other element, or no element at all for events that are no start or end.
    Other,
}

/// One event of the stream, as plain values.
pub struct MdEventInfo {
    /// The byte range of the source that the event covers.
    pub start: usize,
    pub end: usize,
    pub kind: EventKind,
    pub tag: TagKind,
    /// The number of the first item of an ordered list that the event starts.
    pub list_start: Option<u64>,
    /// The text of a text, code, HTML or inline HTML event.
    pub text: Seq<char>,
    /// The destination and the title of a link or an image that the event starts.
    pub url: Seq<char>,
    pub title: Seq<char>,
    /// The HTML that pulldown-cmark writes for this event alone.
    pub html: Seq<char>,
    /// Whether the event starts an autolink: `<https://..>` or `<name@host>`.
    pub autolink: bool,
}

/// The events that pulldown-cmark's parser, with every extension enabled,
/// yields for `source`, in order.
pub uninterp spec fn markdown_events(source: Seq<char>) -> Seq<MdEventInfo>;

/// A markdown source together with the events that pulldown-cmark parsed from
/// it. Only `parse_markdown` makes one, so `events` is always the parse of
/// `source`: the accessors below rely on that.
pub struct ParsedMarkdown<'a> {
    source: &'a str,
    events: Vec<(Event<'a>, usize, usize)>,
}

impl<'a> View for ParsedMarkdown<'a> {
    type V = Seq<char>;

    /// The source that was parsed.
    closed spec fn view(&self) -> Seq<char> {
        self.source@
    }
}

/// Parses `source` as markdown with every extension of pulldown-cmark.
///
/// Trusted: `Parser::new_ext(source, Options::all()).into_offset_iter()`
/// yields each event with its byte range; they are kept in order. Nothing is
/// claimed of the events here beyond being that parse; the accessors read them.
#[verifier::external_body]
pub(crate) fn parse_markdown<'a>(source: &'a str) -> (r: ParsedMarkdown<'a>)
    ensures
        r@ == source@,
{
    let events = Parser::new_ext(source, Options::all()).into_offset_iter().map(|(ev, range)| (ev, range.start, range.end)).collect();
    ParsedMarkdown { source, events }
}

impl<'a> ParsedMarkdown<'a> {
    /// The number of events.
    ///
    /// Trusted: the length of the event list that the parse produced.
    #[verifier::external_body]
    pub(crate) fn len(&self) -> (n: usize)
        ensures
            n == markdown_events(self@).len(),
    {
        self.events.len()
    }

    /// The byte range of event `i`.
    ///
    /// Trusted: the range that `into_offset_iter` paired with the event.
    #[verifier::external_body]
    pub(crate) fn range(&self, i: usize) -> (r: (usize, usize))
        requires
            i < markdown_events(self@).len(),
        ensures
            r.0 == markdown_events(self@)[i as int].start,
            r.1 == markdown_events(self@)[i as int].end,
    {
        (self.events[i].1, self.events[i].2)
    }

    /// The kind of event `i`: one `Event` variant to one `EventKind` variant.
    ///
    /// Trusted: a match on the variants of `pulldown_cmark::Event`.
    #[verifier::external_body]
    pub(crate) fn kind(&self, i: usize) -> (k: EventKind)
        requires
            i < markdown_events(self@).len(),
        ensures
            k == markdown_events(self@)[i as int].kind,
    {
        match &self.events[i].0 {
            Event::Start(_) => EventKind::Start,
            Event::End(_) => EventKind::End,
            Event::Text(_) => EventKind::Text,
            Event::Code(_) => EventKind::Code,
            Event::Html(_) => EventKind::Html,
            Event::InlineHtml(_) => EventKind::InlineHtml,
            Event::Rule => EventKind::Rule,
            Event::TaskListMarker(checked) => EventKind::TaskListMarker(*checked),
            Event::InlineMath(_) => EventKind::Math,
            Event::DisplayMath(_) => EventKind::Math,
            _ => EventKind::Other,
        }
    }

    /// The element that event `i` starts or ends.
    ///
    /// Trusted: `Tag::to_end` of a start event, or the end tag of an end
    /// event, matched variant by variant; the heading level is its number.
    #[verifier::external_body]
    pub(crate) fn tag(&self, i: usize) -> (t: TagKind)
        requires
            i < markdown_events(self@).len(),
        ensures
            t == markdown_events(self@)[i as int].tag,
    {
        let end = match &self.events[i].0 { Event::Start(t) => t.to_end(), Event::End(t) => *t, _ => return TagKind::Other };
        match end {
            TagEnd::Paragraph => TagKind::Paragraph, TagEnd::Heading(l) => TagKind::Heading(l as u8),
            TagEnd::BlockQuote => TagKind::BlockQuote, TagEnd::CodeBlock => TagKind::CodeBlock,
            TagEnd::List(o) => TagKind::List(o), TagEnd::Item => TagKind::Item,
            TagEnd::Table => TagKind::Table, TagEnd::TableHead => TagKind::TableHead,
            TagEnd::TableRow => TagKind::TableRow, TagEnd::TableCell => TagKind::TableCell,
            TagEnd::Emphasis => TagKind::Emphasis, TagEnd::Strong => TagKind::Strong,
            TagEnd::Strikethrough => TagKind::Strikethrough, TagEnd::Link => TagKind::Link,
            TagEnd::Image => TagKind::Image, _ => TagKind::Other,
        }
    }

    /// The first item number of the ordered list that event `i` starts.
    ///
    /// Trusted: the number carried by `Tag::List`.
    #[verifier::external_body]
    pub(crate) fn list_start(&self, i: usize) -> (n: Option<u64>)
        requires
            i < markdown_events(self@).len(),
        ensures
            n == markdown_events(self@)[i as int].list_start,
    {
        match &self.events[i].0 {
            Event::Start(Tag::List(n)) => *n,
            _ => None,
        }
    }

    /// The text of event `i` if it is a text, code, HTML or inline HTML event.
    ///
    /// Trusted: the string each of these variants carries.
    #[verifier::external_body]
    pub(crate) fn text(&self, i: usize) -> (s: String)
        requires
            i < markdown_events(self@).len(),
        ensures
            s@ == markdown_events(self@)[i as int].text,
    {
        match &self.events[i].0 {
            Event::Text(s) | Event::Code(s) | Event::Html(s) | Event::InlineHtml(s) => s.to_string(),
            _ => String::new(),
        }
    }

    /// The destination and the title of the link or image that event `i` starts.
    ///
    /// Trusted: the `dest_url` and `title` fields of `Tag::Link` and `Tag::Image`.
    #[verifier::external_body]
    pub(crate) fn link_target(&self, i: usize) -> (r: (String, String))
        requires
            i < markdown_events(self@).len(),
        ensures
            r.0@ == markdown_events(self@)[i as int].url,
            r.1@ == markdown_events(self@)[i as int].title,
    {
        match &self.events[i].0 {
            Event::Start(Tag::Link { dest_url, title, .. }) => (dest_url.to_string(), title.to_string()),
            Event::Start(Tag::Image { dest_url, title, .. }) => (dest_url.to_string(), title.to_string()),
            _ => (String::new(), String::new()),
        }
    }

    /// Whether event `i` starts an autolink.
    ///
    /// Trusted: the `link_type` of `Tag::Link` is `Autolink` or `Email`.
    #[verifier::external_body]
    pub(crate) fn is_autolink(&self, i: usize) -> (b: bool)
        requires
            i < markdown_events(self@).len(),
        ensures
            b == markdown_events(self@)[i as int].autolink,
    {
        match &self.events[i].0 {
            Event::Start(Tag::Link { link_type: LinkType::Autolink, .. }) => true,
            Event::Start(Tag::Link { link_type: LinkType::Email, .. }) => true,
            _ => false,
        }
    }

    /// The HTML that pulldown-cmark writes for event `i` alone.
    ///
    /// Trusted: `html::push_html` on a stream made of this one event.
    #[verifier::external_body]
    pub(crate) fn html(&self, i: usize) -> (s: String)
        requires
            i < markdown_events(self@).len(),
        ensures
            s@ == markdown_events(self@)[i as int].html,
    {
        let mut s = String::new();
        html::push_html(&mut s, std::iter::once(self.events[i].0.clone()));
        s
    }
}

} // verus!
