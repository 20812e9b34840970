//! Rendering SMD to HTML: the preview body with source line numbers, the
//! self-contained export body with inline styles, and the documents that
//! wrap them.

use vstd::prelude::*;
use crate::config::Config;
use crate::parser::markdown::{markdown_events, parse_markdown, EventKind, MdEventInfo, ParsedMarkdown, TagKind};
use crate::parser::preprocessor::{item_ranges, literal_ranges, preprocess_smd, smd_preprocess, smd_symbols, verbatim_ranges, xml_escape, xml_escaped};
pub use crate::parser::styled::render_to_html_inline;
use crate::text::{byte_len, char_len_utf8, lemma_utf8_len_take_le, lemma_utf8_len_take_push, push_char, push_str, to_chars, utf8_len};

verus! {

/// One event of the markdown stream, as plain values.
pub struct MdEvent {
    pub kind: EventKind,
    pub tag: TagKind,
    pub list_start: Option<u64>,
    pub start: usize,
    pub end: usize,
    pub text: String,
    pub url: String,
    pub title: String,
    pub html: String,
    pub autolink: bool,
}

impl View for MdEvent {
    type V = MdEventInfo;

    open spec fn view(&self) -> MdEventInfo {
        MdEventInfo {
            start: self.start,
            end: self.end,
            kind: self.kind,
            tag: self.tag,
            list_start: self.list_start,
            text: self.text@,
            url: self.url@,
            title: self.title@,
            html: self.html@,
            autolink: self.autolink,
        }
    }
}

pub open spec fn event_views(events: Seq<MdEvent>) -> Seq<MdEventInfo> {
    events.map_values(|e: MdEvent| e@)
}

/// The events of a parsed document, read into plain values.
pub(crate) fn events_of(doc: &ParsedMarkdown) -> (r: Vec<MdEvent>)
    ensures
        event_views(r@) == markdown_events(doc@),
{
    let ghost events = markdown_events(doc@);
    let n = doc.len();
    let mut r: Vec<MdEvent> = Vec::new();
    let mut k: usize = 0;
    while k < n
        invariant
            k <= n,
            n == events.len(),
            events == markdown_events(doc@),
            r@.len() == k,
            forall|j: int| 0 <= j < k ==> (#[trigger] r@[j])@ == events[j],
        decreases n - k,
    {
        let (start, end) = doc.range(k);
        let (url, title) = doc.link_target(k);
        let e = MdEvent {
            kind: doc.kind(k),
            tag: doc.tag(k),
            list_start: doc.list_start(k),
            start,
            end,
            text: doc.text(k),
            url,
            title,
            html: doc.html(k),
            autolink: doc.is_autolink(k),
        };
        r.push(e);
        k += 1;
    }
    assert(event_views(r@) =~= events);
    r
}

/// The markdown events of `source`, with every extension enabled.
pub fn parse_events(source: &str) -> (r: Vec<MdEvent>)
    ensures
        event_views(r@) == markdown_events(source@),
{
    let doc = parse_markdown(source);
    events_of(&doc)
}

/// A decimal digit.
pub open spec fn digit_char(d: nat) -> char {
    if d == 0 { '0' } else if d == 1 { '1' } else if d == 2 { '2' } else if d == 3 { '3' } else if d == 4 { '4' }
    else if d == 5 { '5' } else if d == 6 { '6' } else if d == 7 { '7' } else if d == 8 { '8' } else { '9' }
}

/// The decimal representation of `n`.
pub open spec fn decimal(n: nat) -> Seq<char>
    decreases n,
{
    if n < 10 {
        seq![digit_char(n)]
    } else {
        decimal(n / 10).push(digit_char(n % 10))
    }
}

fn digit_of(d: u64) -> (c: char)
    requires
        d < 10,
    ensures
        c == digit_char(d as nat),
{
    if d == 0 { '0' } else if d == 1 { '1' } else if d == 2 { '2' } else if d == 3 { '3' } else if d == 4 { '4' }
    else if d == 5 { '5' } else if d == 6 { '6' } else if d == 7 { '7' } else if d == 8 { '8' } else { '9' }
}

/// Writes `n` in decimal.
pub fn push_decimal(s: &mut String, n: u64)
    ensures
        final(s)@ == old(s)@ + decimal(n as nat),
    decreases n,
{
    if n < 10 {
        push_char(s, digit_of(n));
    } else {
        push_decimal(s, n / 10);
        push_char(s, digit_of(n % 10));
    }
}

/// The byte where each line of `text` starts: 0, then the byte after each newline.
pub open spec fn line_starts(text: Seq<char>) -> Seq<usize>
    decreases text.len(),
{
    if text.len() == 0 {
        seq![0usize]
    } else if text.last() == '\n' {
        line_starts(text.drop_last()).push(utf8_len(text) as usize)
    } else {
        line_starts(text.drop_last())
    }
}

/// The number of elements of `s` that are at most `v`.
pub open spec fn count_at_most(s: Seq<usize>, v: int) -> nat
    decreases s.len(),
{
    if s.len() == 0 {
        0
    } else {
        count_at_most(s.drop_last(), v) + if s.last() <= v { 1nat } else { 0nat }
    }
}

/// The 1-based line of `text` that holds the source byte of output byte
/// `byte` under `map`; a byte past the map stands for the end of the source.
pub open spec fn source_line(text: Seq<char>, map: Seq<usize>, byte: int) -> nat {
    let orig = if 0 <= byte < map.len() { map[byte] as int } else { utf8_len(text) as int };
    count_at_most(line_starts(text), orig)
}

pub open spec fn strictly_increasing(s: Seq<usize>) -> bool {
    forall|a: int, b: int| 0 <= a < b < s.len() ==> #[trigger] s[a] < #[trigger] s[b]
}

proof fn lemma_count_at_most_split(s: Seq<usize>, v: int, p: int)
    requires
        0 <= p <= s.len(),
        forall|j: int| 0 <= j < p ==> #[trigger] s[j] <= v,
        forall|j: int| p <= j < s.len() ==> #[trigger] s[j] > v,
    ensures
        count_at_most(s, v) == p,
    decreases s.len(),
{
    if s.len() > 0 {
        if p == s.len() {
            lemma_count_at_most_split(s.drop_last(), v, p - 1);
        } else {
            lemma_count_at_most_split(s.drop_last(), v, p);
        }
    }
}

/// The line starts of `chars`, computed.
fn line_starts_of(chars: &Vec<char>) -> (r: Vec<usize>)
    requires
        utf8_len(chars@) <= usize::MAX,
    ensures
        r@ == line_starts(chars@),
        strictly_increasing(r@),
{
    let mut r: Vec<usize> = Vec::new();
    r.push(0);
    let mut pos: usize = 0;
    let mut k: usize = 0;
    assert(chars@.take(0) =~= Seq::<char>::empty());
    while k < chars.len()
        invariant
            k <= chars@.len(),
            utf8_len(chars@) <= usize::MAX,
            pos == utf8_len(chars@.take(k as int)),
            r@ == line_starts(chars@.take(k as int)),
            strictly_increasing(r@),
            r@.len() > 0,
            forall|j: int| 0 <= j < r@.len() ==> #[trigger] r@[j] <= pos,
        decreases chars@.len() - k,
    {
        proof {
            lemma_utf8_len_take_push(chars@, k as int);
            lemma_utf8_len_take_le(chars@, k + 1);
            assert(chars@.take(k + 1).drop_last() =~= chars@.take(k as int));
        }
        let c = chars[k];
        pos = pos + char_len_utf8(c);
        if c == '\n' {
            r.push(pos);
        }
        k += 1;
    }
    assert(chars@.take(chars@.len() as int) =~= chars@);
    r
}

/// The number of line starts at or before `v`, by binary search.
fn count_starts_at_most(starts: &Vec<usize>, v: usize) -> (n: usize)
    requires
        strictly_increasing(starts@),
    ensures
        n == count_at_most(starts@, v as int),
{
    let mut lo: usize = 0;
    let mut hi: usize = starts.len();
    while lo < hi
        invariant
            lo <= hi <= starts@.len(),
            strictly_increasing(starts@),
            forall|j: int| 0 <= j < lo ==> #[trigger] starts@[j] <= v,
            forall|j: int| hi <= j < starts@.len() ==> #[trigger] starts@[j] > v,
        decreases hi - lo,
    {
        let mid = lo + (hi - lo) / 2;
        if starts[mid] <= v {
            lo = mid + 1;
        } else {
            hi = mid;
        }
    }
    proof {
        lemma_count_at_most_split(starts@, v as int, lo as int);
    }
    lo
}


/// `prefix`, the number `n` in decimal, then `suffix`.
pub open spec fn numbered(prefix: Seq<char>, n: nat, suffix: Seq<char>) -> Seq<char> {
    prefix + decimal(n) + suffix
}

/// The preview HTML of one event, the blocks tagged with the source line `line`.
pub open spec fn preview_piece(e: MdEventInfo, line: nat) -> Seq<char> {
    match e.kind {
        EventKind::Start => match e.tag {
            TagKind::Paragraph => numbered("<p data-src-line=\""@, line, "\">"@),
            TagKind::Heading(l) => "<h"@ + decimal(l as nat) + numbered(" data-src-line=\""@, line, "\">"@),
            TagKind::BlockQuote => numbered("<blockquote data-src-line=\""@, line, "\">"@),
            TagKind::CodeBlock => numbered("<pre data-src-line=\""@, line, "\"><code>"@),
            TagKind::List(_) => match e.list_start {
                Some(s) => "<ol start=\""@ + decimal(s as nat) + numbered("\" data-src-line=\""@, line, "\">"@),
                None => numbered("<ul data-src-line=\""@, line, "\">"@),
            },
            TagKind::Item => numbered("<li data-src-line=\""@, line, "\">"@),
            TagKind::Table => numbered("<table data-src-line=\""@, line, "\">"@),
            _ => e.html,
        },
        EventKind::End => match e.tag {
            TagKind::Paragraph => "</p>"@,
            TagKind::Heading(l) => "</h"@ + decimal(l as nat) + ">"@,
            TagKind::BlockQuote => "</blockquote>"@,
            TagKind::CodeBlock => "</code></pre>"@,
            TagKind::List(ordered) => if ordered { "</ol>"@ } else { "</ul>"@ },
            TagKind::Item => "</li>"@,
            TagKind::Table => "</table>"@,
            _ => e.html,
        },
        EventKind::Rule => numbered("<hr data-src-line=\""@, line, "\" />"@),
        _ => e.html,
    }
}

/// The preview body of the events: each piece in order, each block tagged
/// with the source line that its first byte comes from under `map`.
pub open spec fn preview_body(text: Seq<char>, map: Seq<usize>, events: Seq<MdEventInfo>) -> Seq<char>
    decreases events.len(),
{
    if events.len() == 0 {
        Seq::empty()
    } else {
        preview_body(text, map, events.drop_last()) + preview_piece(
            events.last(),
            source_line(text, map, events.last().start as int),
        )
    }
}

/// The preview HTML of `text` under `config`: the SMD preprocessing, then
/// pulldown-cmark's events of its result, rendered with source lines.
pub open spec fn preview_html(text: Seq<char>, config: Config) -> Seq<char> {
    let pre = smd_preprocess(text, smd_symbols(config), verbatim_ranges(markdown_events(text)), item_ranges(markdown_events(text)), literal_ranges(markdown_events(text)));
    preview_body(text, pre.1, markdown_events(pre.0))
}

fn push_numbered(s: &mut String, prefix: &str, n: u64, suffix: &str)
    ensures
        final(s)@ == old(s)@ + numbered(prefix@, n as nat, suffix@),
{
    push_str(s, prefix);
    push_decimal(s, n);
    push_str(s, suffix);
}

fn preview_piece_exec(e: &MdEvent, line: u64) -> (r: String)
    ensures
        r@ == preview_piece(e@, line as nat),
{
    let mut s = String::new();
    match e.kind {
        EventKind::Start => match e.tag {
            TagKind::Paragraph => push_numbered(&mut s, "<p data-src-line=\"", line, "\">"),
            TagKind::Heading(l) => {
                push_str(&mut s, "<h");
                push_decimal(&mut s, l as u64);
                push_numbered(&mut s, " data-src-line=\"", line, "\">");
            },
            TagKind::BlockQuote => push_numbered(&mut s, "<blockquote data-src-line=\"", line, "\">"),
            TagKind::CodeBlock => push_numbered(&mut s, "<pre data-src-line=\"", line, "\"><code>"),
            TagKind::List(_) => match e.list_start {
                Some(start) => {
                    push_str(&mut s, "<ol start=\"");
                    push_decimal(&mut s, start);
                    push_numbered(&mut s, "\" data-src-line=\"", line, "\">");
                },
                None => push_numbered(&mut s, "<ul data-src-line=\"", line, "\">"),
            },
            TagKind::Item => push_numbered(&mut s, "<li data-src-line=\"", line, "\">"),
            TagKind::Table => push_numbered(&mut s, "<table data-src-line=\"", line, "\">"),
            _ => push_str(&mut s, e.html.as_str()),
        },
        EventKind::End => match e.tag {
            TagKind::Paragraph => push_str(&mut s, "</p>"),
            TagKind::Heading(l) => {
                push_str(&mut s, "</h");
                push_decimal(&mut s, l as u64);
                push_str(&mut s, ">");
            },
            TagKind::BlockQuote => push_str(&mut s, "</blockquote>"),
            TagKind::CodeBlock => push_str(&mut s, "</code></pre>"),
            TagKind::List(ordered) => if ordered {
                push_str(&mut s, "</ol>")
            } else {
                push_str(&mut s, "</ul>")
            },
            TagKind::Item => push_str(&mut s, "</li>"),
            TagKind::Table => push_str(&mut s, "</table>"),
            _ => push_str(&mut s, e.html.as_str()),
        },
        EventKind::Rule => push_numbered(&mut s, "<hr data-src-line=\"", line, "\" />"),
        _ => push_str(&mut s, e.html.as_str()),
    }
    s
}

/// Renders the events of the preprocessed text of `text`, whose bytes map to
/// source bytes under `map`, into the preview body.
pub fn render_events(text: &str, map: &[usize], events: &[MdEvent]) -> (r: String)
    ensures
        r@ == preview_body(text@, map@, event_views(events@)),
{
    let chars = to_chars(text);
    let total = byte_len(text);
    let starts = line_starts_of(&chars);
    let mut body = String::new();
    let mut k: usize = 0;
    while k < events.len()
        invariant
            k <= events@.len(),
            chars@ == text@,
            total == utf8_len(text@),
            starts@ == line_starts(text@),
            strictly_increasing(starts@),
            body@ == preview_body(text@, map@, event_views(events@).take(k as int)),
        decreases events@.len() - k,
    {
        let e = &events[k];
        let orig = if e.start < map.len() { map[e.start] } else { total };
        let line = count_starts_at_most(&starts, orig);
        proof {
            lemma_count_at_most_le_len(starts@, orig as int);
            assert(event_views(events@).take(k + 1).drop_last() =~= event_views(events@).take(k as int));
            assert(event_views(events@).take(k + 1).last() == events@[k as int]@);
        }
        let piece = preview_piece_exec(e, line as u64);
        push_str(&mut body, piece.as_str());
        k += 1;
    }
    assert(event_views(events@).take(events@.len() as int) =~= event_views(events@));
    body
}

proof fn lemma_count_at_most_le_len(s: Seq<usize>, v: int)
    ensures
        count_at_most(s, v) <= s.len(),
    decreases s.len(),
{
    if s.len() > 0 {
        lemma_count_at_most_le_len(s.drop_last(), v);
    }
}

/// Renders SMD `text` under `config` into the body of the preview: blocks
/// carry `data-src-line` with the line of the source they start on.
pub fn render_to_html(text: &str, config: &Config) -> (r: String)
    ensures
        r@ == preview_html(text@, *config),
{
    let (preprocessed, map) = preprocess_smd(text, config);
    let doc = parse_markdown(preprocessed.as_str());
    let events = events_of(&doc);
    render_events(text, map.as_slice(), events.as_slice())
}

/// A fixed part of the preview document.
pub const DOC_HEAD: &'static str = r#"<!DOCTYPE html>
<html class=""#;

/// A fixed part of the preview document.
pub const DOC_AFTER_MODE: &'static str = r#"">
<head>
<meta charset="utf-8">
<meta name="color-scheme" content="light dark">
"#;

/// A fixed part of the preview document.
pub const DOC_AFTER_CSP: &'static str = r#"
<style>
:root { color-scheme: light dark; }
html.light-mode { color-scheme: light; --bg: white; --fg: black; }
html.dark-mode { color-scheme: dark; --bg: #1e1e1e; --fg: #e0e0e0; }

body {
    background-color: var(--bg);
    color: var(--fg);
    margin: 1em auto;
    max-width: 800px;
    padding: 0 1em;
    line-height: 1.6;
}

html.light-mode body { background-color: white; color: black; }
html.dark-mode body { background-color: #1e1e1e; color: #e0e0e0; }

sup.footnote {
    font-size: 0.75em;
    background: #e0e0e0;
    color: #333;
    border-radius: 3px;
    padding: 0 3px;
    margin: 0 1px;
}
html.dark-mode sup.footnote { background: #444; color: #eee; }

blockquote.named-quote {
    border-left: 4px solid #888;
    margin: 0.5em 0;
    padding: 0.5em 1em;
    font-style: italic;
}
blockquote.named-quote cite.quote-author {
    display: block;
    font-style: normal;
    font-weight: bold;
    font-size: 0.9em;
    color: #666;
    margin-bottom: 0.25em;
}
html.dark-mode blockquote.named-quote cite.quote-author { color: #aaa; }

details {
    border: 1px solid #ccc;
    border-radius: 4px;
    padding: 0.5em 1em;
    margin: 0.5em 0;
}
details > summary {
    cursor: pointer;
    font-weight: bold;
    list-style: none;
    padding: 0.25em 0;
}
details > summary::before { content: "▶ "; font-size: 0.8em; }
details[open] > summary::before { content: "▼ "; font-size: 0.8em; }
html.dark-mode details { border-color: #555; }

"#;

/// A fixed part of the preview document.
pub const DOC_AFTER_MARK: &'static str = r#"
"#;

/// A fixed part of the preview document.
pub const DOC_AFTER_CSS: &'static str = r#"
.error { text-decoration: underline wavy red; }
.warning { color: red; font-weight: bold; border: 1px solid red; padding: 4px 8px; border-radius: 4px; margin-bottom: 1em; display: inline-block; }
span.spoiler {
    background-color: #b5bac1;
    color: #b5bac1;
    border-radius: 3px;
    padding: 0 3px;
    cursor: pointer;
    user-select: none;
    transition: background-color 0.2s, color 0.2s;
}
span.spoiler.revealed {
    background-color: rgba(79,84,92,0.3);
    color: inherit;
    user-select: text;
}
[data-src-line].sfmde-cursor-line {
    outline: 2px solid rgba(100,140,255,0.55);
    outline-offset: 2px;
    border-radius: 3px;
}
</style>
<script>
(function() {
    try {
        var saved = sessionStorage.getItem('sfmde_scrollY');
        if (saved) {
            document.addEventListener('DOMContentLoaded', function() {
                window.scrollTo(0, parseInt(saved, 10));
            });
        }
        window.addEventListener('scroll', function() {
            try { sessionStorage.setItem('sfmde_scrollY', window.scrollY); } catch(e) {}
        }, { passive: true });
    } catch(e) {}

    window._sfmde_setCursor = function(line) {
        var prev = document.querySelector('.sfmde-cursor-line');
        if (prev) prev.classList.remove('sfmde-cursor-line');
        var all = Array.from(document.querySelectorAll('[data-src-line]'));
        if (!all.length) return;
        var best = all[0];
        for (var i = 0; i < all.length; i++) {
            var l = parseInt(all[i].getAttribute('data-src-line'), 10);
            if (l <= line) best = all[i]; else break;
        }
        best.classList.add('sfmde-cursor-line');
    };

    document.addEventListener('click', function(e) {
        var s = e.target.closest('.spoiler');
        if (s) s.classList.toggle('revealed');
    });

    window._sfmde_syncScroll = function(fraction) {
        var max = document.documentElement.scrollHeight - window.innerHeight;
        if (max > 0) window.scrollTo(0, fraction * max);
    };
})(),
</script>
</head>
<body>
"#;

/// A fixed part of the preview document.
pub const DOC_END: &'static str = r#"
</body>
</html>"#;

/// The Content-Security-Policy that keeps the preview to local resources.
pub const LOCAL_ONLY_CSP: &'static str = r#"<meta http-equiv="Content-Security-Policy" content="default-src 'none'; style-src 'unsafe-inline'; script-src 'unsafe-inline'; img-src file: data: blob:; font-src file: data:;">"#;

/// A fixed part of the exported document.
pub const EXPORT_HEAD: &'static str = r#"<!DOCTYPE html>
<html>
<head>
<meta charset="utf-8">
<meta name="viewport" content="width=device-width, initial-scale=1">
<title>"#;

/// A fixed part of the exported document.
pub const EXPORT_AFTER_TITLE: &'static str = r#"</title>
</head>
<body style="font-family: -apple-system, BlinkMacSystemFont, 'Segoe UI', Roboto, Helvetica, Arial, sans-serif; color: #24292f; background-color: #ffffff; line-height: 1.6; max-width: 800px; margin: 40px auto; padding: 0 30px;">
"#;

/// A fixed part of the exported document.
pub const EXPORT_END: &'static str = r#"
</body>
</html>"#;

/// The class of the root element for a preview color scheme: 1 light, 2 dark, else none.
pub open spec fn mode_class(mode: i32) -> Seq<char> {
    if mode == 1 {
        "light-mode"@
    } else if mode == 2 {
        "dark-mode"@
    } else {
        Seq::empty()
    }
}

/// The CSS rule giving highlighted text the color `color`, if one is set.
pub open spec fn mark_rule(color: Seq<char>) -> Seq<char> {
    if color.len() == 0 {
        Seq::empty()
    } else {
        "mark { background-color: "@ + color + "; }"@
    }
}

/// The preview document around `body`, with the user's `css`.
pub open spec fn html_document(body: Seq<char>, css: Seq<char>, mode: i32, highlight_color: Seq<char>, local_only: bool) -> Seq<char> {
    DOC_HEAD@ + mode_class(mode) + DOC_AFTER_MODE@ + (if local_only { LOCAL_ONLY_CSP@ } else { Seq::empty() })
        + DOC_AFTER_CSP@ + mark_rule(highlight_color) + DOC_AFTER_MARK@ + css + DOC_AFTER_CSS@ + body + DOC_END@
}

/// Wraps a body fragment in a complete HTML document, injecting the provided CSS.
pub fn build_html_document(body: &str, css: &str, mode: i32, highlight_color: &str, local_only: bool) -> (r: String)
    ensures
        r@ == html_document(body@, css@, mode, highlight_color@, local_only),
{
    let mut s = String::new();
    push_str(&mut s, DOC_HEAD);
    if mode == 1 {
        push_str(&mut s, "light-mode");
    } else if mode == 2 {
        push_str(&mut s, "dark-mode");
    }
    push_str(&mut s, DOC_AFTER_MODE);
    if local_only {
        push_str(&mut s, LOCAL_ONLY_CSP);
    }
    push_str(&mut s, DOC_AFTER_CSP);
    if !highlight_color.is_empty() {
        push_str(&mut s, "mark { background-color: ");
        push_str(&mut s, highlight_color);
        push_str(&mut s, "; }");
    }
    push_str(&mut s, DOC_AFTER_MARK);
    push_str(&mut s, css);
    push_str(&mut s, DOC_AFTER_CSS);
    push_str(&mut s, body);
    push_str(&mut s, DOC_END);
    assert(s@ =~= html_document(body@, css@, mode, highlight_color@, local_only));
    s
}

/// The exported, self-contained document around `body`, titled `title`.
pub open spec fn export_document(body: Seq<char>, title: Seq<char>) -> Seq<char> {
    EXPORT_HEAD@ + xml_escaped(title) + EXPORT_AFTER_TITLE@ + body + EXPORT_END@
}

/// Wraps an inline-styled body in a complete HTML document titled `title`.
pub fn build_html_document_inline_styles(body: &str, title: &str) -> (r: String)
    ensures
        r@ == export_document(body@, title@),
{
    let mut s = String::new();
    push_str(&mut s, EXPORT_HEAD);
    let t = xml_escape(title);
    push_str(&mut s, t.as_str());
    push_str(&mut s, EXPORT_AFTER_TITLE);
    push_str(&mut s, body);
    push_str(&mut s, EXPORT_END);
    s
}

proof fn lemma_line_starts_first(text: Seq<char>)
    ensures
        line_starts(text).len() >= 1,
        line_starts(text)[0] == 0,
    decreases text.len(),
{
    if text.len() > 0 {
        lemma_line_starts_first(text.drop_last());
    }
}

proof fn lemma_count_at_most_first(s: Seq<usize>, v: int)
    requires
        s.len() >= 1,
        s[0] <= v,
    ensures
        count_at_most(s, v) >= 1,
    decreases s.len(),
{
    if s.len() > 1 {
        lemma_count_at_most_first(s.drop_last(), v);
    }
}

/// The line a preview block is tagged with is a line of the source: at
/// least the first, at most the last.
pub proof fn lemma_source_line_in_range(text: Seq<char>, map: Seq<usize>, byte: int)
    ensures
        1 <= source_line(text, map, byte) <= line_starts(text).len(),
{
    lemma_line_starts_first(text);
    let orig = if 0 <= byte < map.len() { map[byte] as int } else { utf8_len(text) as int };
    lemma_count_at_most_first(line_starts(text), orig);
    lemma_count_at_most_le_len(line_starts(text), orig);
}

/// The value of a digit character, 0 for any other character.
pub open spec fn digit_value(c: char) -> nat {
    if '0' <= c <= '9' { (c as u32 - '0' as u32) as nat } else { 0 }
}

/// The number that a string of decimal digits reads as.
pub open spec fn decimal_value(s: Seq<char>) -> nat
    decreases s.len(),
{
    if s.len() == 0 {
        0
    } else {
        decimal_value(s.drop_last()) * 10 + digit_value(s.last())
    }
}

proof fn lemma_digit_reads_back(d: nat)
    requires
        d < 10,
    ensures
        digit_value(digit_char(d)) == d,
        '0' <= digit_char(d) <= '9',
{
    assert(('0' as u32) == 48);
    if d == 0 {} else if d == 1 {} else if d == 2 {} else if d == 3 {} else if d == 4 {}
    else if d == 5 {} else if d == 6 {} else if d == 7 {} else if d == 8 {} else {}
}

/// Written in decimal, a number reads back as itself, in digits only.
pub proof fn lemma_decimal_reads_back(n: nat)
    ensures
        decimal_value(decimal(n)) == n,
        decimal(n).len() >= 1,
        forall|k: int| 0 <= k < decimal(n).len() ==> '0' <= #[trigger] decimal(n)[k] <= '9',
    decreases n,
{
    if n < 10 {
        lemma_digit_reads_back(n);
        assert(decimal(n).drop_last() =~= Seq::<char>::empty());
        assert(decimal_value(Seq::<char>::empty()) == 0);
        assert(decimal_value(decimal(n)) == decimal_value(decimal(n).drop_last()) * 10 + digit_value(decimal(n).last()));
    } else {
        lemma_digit_reads_back(n % 10);
        lemma_decimal_reads_back(n / 10);
        let d = decimal(n);
        assert(d.drop_last() =~= decimal(n / 10));
        assert(d.last() == digit_char(n % 10));
        assert(decimal_value(d) == decimal_value(d.drop_last()) * 10 + digit_value(d.last()));
        assert(n == (n / 10) * 10 + n % 10) by (nonlinear_arith);
        assert forall|k: int| 0 <= k < d.len() implies '0' <= #[trigger] d[k] <= '9' by {
            if k < d.len() - 1 {
                assert(d[k] == decimal(n / 10)[k]);
            }
        }
    }
}

/// The preview of an ordered list keeps its numbering: the `<ol>` that
/// opens it carries, as its `start` attribute, digits that read as the
/// number the list starts with in the source.
pub proof fn lemma_ordered_list_keeps_start(e: MdEventInfo, line: nat, n: u64)
    requires
        e.kind == EventKind::Start,
        e.tag is List,
        e.list_start == Some(n),
    ensures
        ({
            let p = preview_piece(e, line);
            let open = "<ol start=\""@;
            let k = (open.len() + decimal(n as nat).len()) as int;
            &&& p.take(open.len() as int) == open
            &&& decimal_value(p.subrange(open.len() as int, k)) == n
            &&& forall|j: int| open.len() <= j < k ==> '0' <= #[trigger] p[j] <= '9'
            &&& p[k] == '"'
        }),
{
    let p = preview_piece(e, line);
    let open = "<ol start=\""@;
    let w = decimal(n as nat);
    let rest = numbered("\" data-src-line=\""@, line, "\">"@);
    assert(p == open + w + rest);
    lemma_decimal_reads_back(n as nat);
    reveal_strlit("\" data-src-line=\"");
    assert(p.take(open.len() as int) =~= open);
    assert(p.subrange(open.len() as int, (open.len() + w.len()) as int) =~= w);
    assert forall|j: int| open.len() <= j < open.len() + w.len() implies '0' <= #[trigger] p[j] <= '9' by {
        assert(p[j] == w[j - open.len()]);
    }
    assert(p[(open.len() + w.len()) as int] == rest[0]);
    assert(rest[0] == "\" data-src-line=\""@[0]);
}

/// Choosing the light or the dark scheme only names it as the class of the
/// root element: the document is the one of the system scheme with
/// `light-mode` (scheme 1) or `dark-mode` (scheme 2) written into the
/// class attribute that follows the document's head.
pub proof fn lemma_color_scheme_class(body: Seq<char>, css: Seq<char>, highlight_color: Seq<char>, local_only: bool)
    ensures
        html_document(body, css, 1, highlight_color, local_only)
            == DOC_HEAD@ + "light-mode"@ + html_document(body, css, 0, highlight_color, local_only).skip(DOC_HEAD@.len() as int),
        html_document(body, css, 2, highlight_color, local_only)
            == DOC_HEAD@ + "dark-mode"@ + html_document(body, css, 0, highlight_color, local_only).skip(DOC_HEAD@.len() as int),
        html_document(body, css, 0, highlight_color, local_only).take(DOC_HEAD@.len() as int) == DOC_HEAD@,
{
    let tail = DOC_AFTER_MODE@ + (if local_only { LOCAL_ONLY_CSP@ } else { Seq::empty() })
        + DOC_AFTER_CSP@ + mark_rule(highlight_color) + DOC_AFTER_MARK@ + css + DOC_AFTER_CSS@ + body + DOC_END@;
    let sys = html_document(body, css, 0, highlight_color, local_only);
    assert(sys =~= DOC_HEAD@ + tail);
    assert(sys.skip(DOC_HEAD@.len() as int) =~= tail);
    assert(sys.take(DOC_HEAD@.len() as int) =~= DOC_HEAD@);
    assert(html_document(body, css, 1, highlight_color, local_only) =~= DOC_HEAD@ + "light-mode"@ + tail);
    assert(html_document(body, css, 2, highlight_color, local_only) =~= DOC_HEAD@ + "dark-mode"@ + tail);
}

} // verus!
