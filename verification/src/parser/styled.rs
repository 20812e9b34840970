//! Rendering SMD to HTML with inline styles, so that an exported document
//! looks the same without a style sheet.

use vstd::prelude::*;
use crate::config::Config;
use crate::parser::markdown::{markdown_events, parse_markdown, EventKind, MdEventInfo, TagKind};
use crate::parser::preprocessor::{item_ranges, literal_ranges, preprocess_smd, smd_preprocess, smd_symbols, symbol_at, symbol_at_chars, verbatim_ranges, xml_escape, xml_escaped};
use crate::parser::renderer::{decimal, event_views, events_of, push_decimal, MdEvent};
use crate::text::{push_char, push_str, to_chars};

verus! {

/// Opens a paragraph.
pub const PARAGRAPH_OPEN: &'static str = r#"<p style="margin-top: 0; margin-bottom: 16px; line-height: 1.6;">"#;

/// The style of a level 1 heading.
pub const H1_STYLE: &'static str = r#"font-size: 2em; border-bottom: 1px solid #eaecef; padding-bottom: 0.3em; margin-top: 24px; margin-bottom: 16px; font-weight: 600; color: #24292f;"#;

/// The style of a level 2 heading.
pub const H2_STYLE: &'static str = r#"font-size: 1.5em; border-bottom: 1px solid #eaecef; padding-bottom: 0.3em; margin-top: 24px; margin-bottom: 16px; font-weight: 600; color: #24292f;"#;

/// The style of a level 3 heading.
pub const H3_STYLE: &'static str = r#"font-size: 1.25em; margin-top: 24px; margin-bottom: 16px; font-weight: 600; color: #24292f;"#;

/// The style of a level 4 heading.
pub const H4_STYLE: &'static str = r#"font-size: 1em; margin-top: 24px; margin-bottom: 16px; font-weight: 600; color: #24292f;"#;

/// The style of a level 5 heading.
pub const H5_STYLE: &'static str = r#"font-size: 0.875em; margin-top: 24px; margin-bottom: 16px; font-weight: 600; color: #24292f;"#;

/// The style of a level 6 heading.
pub const H6_STYLE: &'static str = r#"font-size: 0.85em; margin-top: 24px; margin-bottom: 16px; font-weight: 600; color: #6a737d;"#;

/// Opens a block quote.
pub const BLOCKQUOTE_OPEN: &'static str = r#"<blockquote style="padding: 0 1em; color: #57606a; border-left: .25em solid #d0d7de; margin: 0 0 16px 0;">"#;

/// Opens a code block.
pub const CODE_BLOCK_OPEN: &'static str = r#"<pre style="padding: 16px; overflow: auto; font-size: 85%; line-height: 1.45; background-color: #f6f8fa; border-radius: 6px; margin-top: 0; margin-bottom: 16px;"><code style="background: none; padding: 0; margin: 0; font-size: 100%; word-break: normal; border: 0; display: block; overflow-x: auto; font-family: ui-monospace, SFMono-Regular, SF Mono, Menlo, Consolas, Liberation Mono, monospace;">"#;

/// Ends the opening tag of an ordered list, after its start number.
pub const ORDERED_LIST_REST: &'static str = r#"" style="padding-left: 2em; margin-top: 0; margin-bottom: 16px;">"#;

/// Opens a bullet list.
pub const BULLET_LIST_OPEN: &'static str = r#"<ul style="padding-left: 2em; margin-top: 0; margin-bottom: 16px;">"#;

/// Opens a list item.
pub const ITEM_OPEN: &'static str = r#"<li style="margin-top: 0.25em;">"#;

/// Opens emphasis.
pub const EMPHASIS_OPEN: &'static str = r#"<em style="font-style: italic;">"#;

/// Opens strong emphasis.
pub const STRONG_OPEN: &'static str = r#"<strong style="font-weight: bold;">"#;

/// Opens struck-through text.
pub const STRIKE_OPEN: &'static str = r#"<s style="text-decoration: line-through;">"#;

/// Ends the opening tag of a link, after its destination and title.
pub const LINK_REST: &'static str = r#" style="color: #0969da; text-decoration: none;">"#;

/// Opens a table.
pub const TABLE_OPEN: &'static str = r#"<table style="border-spacing: 0; border-collapse: collapse; margin-top: 0; margin-bottom: 16px; width: 100%; display: block; overflow: auto;">"#;

/// Opens the head of a table.
pub const TABLE_HEAD_OPEN: &'static str = r#"<thead style="font-weight: 600;">"#;

/// Opens a cell of the table head.
pub const HEADER_CELL_OPEN: &'static str = r#"<th style="padding: 6px 13px; border: 1px solid #d0d7de; background-color: #f6f8fa; font-weight: 600; text-align: left;">"#;

/// Opens a cell of the table body.
pub const BODY_CELL_OPEN: &'static str = r#"<td style="padding: 6px 13px; border: 1px solid #d0d7de; text-align: left;">"#;

/// Ends an image tag, after its source, text and title.
pub const IMAGE_REST: &'static str = r#" style="max-width: 100%; box-sizing: border-box; display: block; margin: 16px 0;" />"#;

/// Opens inline code.
pub const INLINE_CODE_OPEN: &'static str = r#"<code style="padding: 0.25em 0.4em; margin: 0; font-size: 85%; background-color: rgba(175,184,193,0.2); border-radius: 6px; font-family: ui-monospace, SFMono-Regular, SF Mono, Menlo, Consolas, Liberation Mono, monospace;">"#;

/// A thematic break.
pub const RULE: &'static str = r#"<hr style="height: .25em; padding: 0; margin: 24px 0; background-color: #d0d7de; border: 0;" />"#;

/// A checked task list box.
pub const CHECKBOX_CHECKED: &'static str = r#"<input type="checkbox" checked disabled style="margin-right: 0.3em; vertical-align: middle;" />"#;

/// An unchecked task list box.
pub const CHECKBOX_UNCHECKED: &'static str = r#"<input type="checkbox" disabled style="margin-right: 0.3em; vertical-align: middle;" />"#;

/// A spoiler class attribute, with its style and toggle.
pub const SPOILER_STYLED: &'static str = r#"class="spoiler" style="background-color: #b5bac1; color: #b5bac1; border-radius: 3px; padding: 0 3px; cursor: pointer;" onclick="if (this.style.color === 'inherit') { this.style.backgroundColor = '#b5bac1'; this.style.color = '#b5bac1'; } else { this.style.backgroundColor = 'rgba(79,84,92,0.3)'; this.style.color = 'inherit'; }""#;

/// A footnote class attribute, with its style.
pub const FOOTNOTE_STYLED: &'static str = r#"class="footnote" style="font-size: 0.75em; background: #e0e0e0; color: #333; border-radius: 3px; padding: 0 3px; margin: 0 1px;""#;

/// A named quote class attribute, with its style.
pub const NAMED_QUOTE_STYLED: &'static str = r#"class="named-quote" style="border-left: 4px solid #888; margin: 0.5em 0; padding: 0.5em 1em; font-style: italic;""#;

/// A quote author class attribute, with its style.
pub const QUOTE_AUTHOR_STYLED: &'static str = r#"class="quote-author" style="display: block; font-style: normal; font-weight: bold; font-size: 0.9em; color: #666; margin-bottom: 0.25em;""#;

/// A styled details tag.
pub const DETAILS_STYLED: &'static str = r#"<details style="border: 1px solid #ccc; border-radius: 4px; padding: 0.5em 1em; margin: 0.5em 0;">"#;

/// A styled summary tag.
pub const SUMMARY_STYLED: &'static str = r#"<summary style="cursor: pointer; font-weight: bold; list-style: none; padding: 0.25em 0;">"#;

/// An error class attribute, with its style.
pub const ERROR_STYLED: &'static str = r#"class="error" style="text-decoration: underline wavy red;""#;

/// `s` with every occurrence of `pat` replaced by `rep`, scanning from the
/// left; occurrences do not overlap, and an empty pattern matches nothing.
pub open spec fn replace_seq(s: Seq<char>, pat: Seq<char>, rep: Seq<char>) -> Seq<char>
    decreases s.len(),
{
    if s.len() == 0 {
        Seq::empty()
    } else if symbol_at(s, 0, pat) {
        rep + replace_seq(s.skip(pat.len() as int), pat, rep)
    } else {
        seq![s[0]] + replace_seq(s.skip(1), pat, rep)
    }
}

/// Replaces every occurrence of `pat` in `s` by `rep`, leftmost first.
pub fn replace_all(s: &str, pat: &str, rep: &str) -> (r: String)
    ensures
        r@ == replace_seq(s@, pat@, rep@),
{
    let chars = to_chars(s);
    let p = to_chars(pat);
    let n = chars.len();
    let m = p.len();
    let mut out = String::new();
    let mut i: usize = 0;
    assert(s@.skip(0) =~= s@);
    assert(out@ + replace_seq(s@, pat@, rep@) =~= replace_seq(s@, pat@, rep@));
    while i < n
        invariant
            i <= n,
            n == chars@.len(),
            m == p@.len(),
            chars@ == s@,
            p@ == pat@,
            out@ + replace_seq(s@.skip(i as int), pat@, rep@) == replace_seq(s@, pat@, rep@),
        decreases n - i,
    {
        let ghost rest = s@.skip(i as int);
        let ghost before = out@;
        if symbol_at_chars(chars.as_slice(), i, p.as_slice()) {
            proof {
                assert(chars@.subrange(i as int, i + m) =~= rest.subrange(0, m as int));
                assert(rest.skip(m as int) =~= s@.skip(i + m));
                assert(before + (rep@ + replace_seq(rest.skip(m as int), pat@, rep@)) =~= (before + rep@) + replace_seq(rest.skip(m as int), pat@, rep@));
            }
            push_str(&mut out, rep);
            i += m;
        } else {
            proof {
                if 0 < m && m <= rest.len() {
                    assert(chars@.subrange(i as int, i + m) =~= rest.subrange(0, m as int));
                }
                assert(rest.skip(1) =~= s@.skip(i + 1));
                assert(before + (seq![rest[0]] + replace_seq(rest.skip(1), pat@, rep@)) =~= before.push(chars@[i as int]) + replace_seq(rest.skip(1), pat@, rep@));
            }
            push_char(&mut out, chars[i]);
            i += 1;
        }
    }
    assert(s@.skip(n as int) =~= Seq::<char>::empty());
    assert(out@ + Seq::<char>::empty() =~= out@);
    out
}

/// The highlight color that marked text gets: the configured one, or a pale
/// yellow where none is set.
pub open spec fn mark_color(configured: Seq<char>) -> Seq<char> {
    if configured.len() == 0 { "#fff2a8"@ } else { configured }
}

/// Raw HTML with the SMD elements given their styles inline: spoilers,
/// footnotes, named quotes and their authors, details and summaries, errors,
/// marked text in `color`, and the plain formatting tags.
pub open spec fn styled_html(html: Seq<char>, color: Seq<char>) -> Seq<char> {
    let s = replace_seq(html, "class=\"spoiler\""@, SPOILER_STYLED@);
    let s = replace_seq(s, "class=\"footnote\""@, FOOTNOTE_STYLED@);
    let s = replace_seq(s, "class=\"named-quote\""@, NAMED_QUOTE_STYLED@);
    let s = replace_seq(s, "class=\"quote-author\""@, QUOTE_AUTHOR_STYLED@);
    let s = replace_seq(s, "<details>"@, DETAILS_STYLED@);
    let s = replace_seq(s, "<summary>"@, SUMMARY_STYLED@);
    let s = replace_seq(s, "class=\"error\""@, ERROR_STYLED@);
    let s = replace_seq(s, "<mark>"@, "<mark style=\"background-color: "@ + color + ";\">"@);
    let s = replace_seq(s, "<strong>"@, STRONG_OPEN@);
    let s = replace_seq(s, "<em>"@, EMPHASIS_OPEN@);
    let s = replace_seq(s, "<s>"@, STRIKE_OPEN@);
    let s = replace_seq(s, "<u>"@, "<u style=\"text-decoration: underline;\">"@);
    let s = replace_seq(s, "<sup>"@, "<sup style=\"vertical-align: super; font-size: smaller;\">"@);
    replace_seq(s, "<sub>"@, "<sub style=\"vertical-align: sub; font-size: smaller;\">"@)
}

/// Gives the SMD elements of raw HTML their styles inline, marked text in `color`.
pub fn style_html(html: &str, color: &str) -> (r: String)
    ensures
        r@ == styled_html(html@, color@),
{
    let s = replace_all(html, "class=\"spoiler\"", SPOILER_STYLED);
    let s = replace_all(s.as_str(), "class=\"footnote\"", FOOTNOTE_STYLED);
    let s = replace_all(s.as_str(), "class=\"named-quote\"", NAMED_QUOTE_STYLED);
    let s = replace_all(s.as_str(), "class=\"quote-author\"", QUOTE_AUTHOR_STYLED);
    let s = replace_all(s.as_str(), "<details>", DETAILS_STYLED);
    let s = replace_all(s.as_str(), "<summary>", SUMMARY_STYLED);
    let s = replace_all(s.as_str(), "class=\"error\"", ERROR_STYLED);
    let mut mark = String::new();
    push_str(&mut mark, "<mark style=\"background-color: ");
    push_str(&mut mark, color);
    push_str(&mut mark, ";\">");
    let s = replace_all(s.as_str(), "<mark>", mark.as_str());
    let s = replace_all(s.as_str(), "<strong>", STRONG_OPEN);
    let s = replace_all(s.as_str(), "<em>", EMPHASIS_OPEN);
    let s = replace_all(s.as_str(), "<s>", STRIKE_OPEN);
    let s = replace_all(s.as_str(), "<u>", "<u style=\"text-decoration: underline;\">");
    let s = replace_all(s.as_str(), "<sup>", "<sup style=\"vertical-align: super; font-size: smaller;\">");
    replace_all(s.as_str(), "<sub>", "<sub style=\"vertical-align: sub; font-size: smaller;\">")
}

/// An image whose end has not come yet: its source and title, and the text
/// read so far, which becomes its `alt`.
pub struct PendingImage {
    pub dest: Seq<char>,
    pub title: Seq<char>,
    pub alt: Seq<char>,
}

/// What the styled renderer has written and what it remembers: the body rows
/// of the current table so far, whether it is inside a table head, and an
/// image whose end has not come.
pub struct StyledState {
    pub body: Seq<char>,
    pub rows: nat,
    pub in_head: bool,
    pub image: Option<PendingImage>,
}

/// The ` title="..."` attribute of a link or image, none for an empty title.
pub open spec fn title_attr(title: Seq<char>) -> Seq<char> {
    if title.len() == 0 { Seq::empty() } else { " title=\""@ + xml_escaped(title) + "\""@ }
}

/// The inline style of a heading of level `level`.
pub open spec fn heading_style(level: u8) -> Seq<char> {
    if level == 1 { H1_STYLE@ } else if level == 2 { H2_STYLE@ } else if level == 3 { H3_STYLE@ }
    else if level == 4 { H4_STYLE@ } else if level == 5 { H5_STYLE@ } else { H6_STYLE@ }
}

/// The state after writing `piece`.
pub open spec fn emit(st: StyledState, piece: Seq<char>) -> StyledState {
    StyledState { body: st.body + piece, ..st }
}

/// A start event, outside an image.
pub open spec fn styled_start(st: StyledState, e: MdEventInfo) -> StyledState {
    match e.tag {
        TagKind::Paragraph => emit(st, PARAGRAPH_OPEN@),
        TagKind::Heading(l) => emit(st, "<h"@ + decimal(l as nat) + " style=\""@ + heading_style(l) + "\">"@),
        TagKind::BlockQuote => emit(st, BLOCKQUOTE_OPEN@),
        TagKind::CodeBlock => emit(st, CODE_BLOCK_OPEN@),
        TagKind::List(_) => match e.list_start {
            Some(n) => emit(st, "<ol start=\""@ + decimal(n as nat) + ORDERED_LIST_REST@),
            None => emit(st, BULLET_LIST_OPEN@),
        },
        TagKind::Item => emit(st, ITEM_OPEN@),
        TagKind::Emphasis => emit(st, EMPHASIS_OPEN@),
        TagKind::Strong => emit(st, STRONG_OPEN@),
        TagKind::Strikethrough => emit(st, STRIKE_OPEN@),
        TagKind::Link => emit(st, "<a href=\""@ + xml_escaped(e.url) + "\""@ + title_attr(e.title) + LINK_REST@),
        TagKind::Image => StyledState {
            image: Some(PendingImage { dest: e.url, title: e.title, alt: Seq::empty() }),
            ..st
        },
        TagKind::Table => StyledState { rows: 0, ..emit(st, TABLE_OPEN@) },
        TagKind::TableHead => StyledState { in_head: true, ..emit(st, TABLE_HEAD_OPEN@) },
        TagKind::TableRow => if st.in_head {
            emit(st, "<tr>"@)
        } else {
            let bg = if st.rows % 2 == 0 { "#ffffff"@ } else { "#f6f8fa"@ };
            StyledState { rows: st.rows + 1, ..emit(st, "<tr style=\"background-color: "@ + bg + ";\">"@) }
        },
        TagKind::TableCell => if st.in_head { emit(st, HEADER_CELL_OPEN@) } else { emit(st, BODY_CELL_OPEN@) },
        TagKind::Other => emit(st, e.html),
    }
}

/// The image tag of a finished image.
pub open spec fn image_tag(img: PendingImage) -> Seq<char> {
    "<img src=\""@ + xml_escaped(img.dest) + "\" alt=\""@ + xml_escaped(img.alt) + "\""@ + title_attr(img.title) + IMAGE_REST@
}

/// An end event, outside an image or ending it.
pub open spec fn styled_end(st: StyledState, e: MdEventInfo) -> StyledState {
    match e.tag {
        TagKind::Paragraph => emit(st, "</p>"@),
        TagKind::Heading(l) => emit(st, "</h"@ + decimal(l as nat) + ">"@),
        TagKind::BlockQuote => emit(st, "</blockquote>"@),
        TagKind::CodeBlock => emit(st, "</code></pre>"@),
        TagKind::List(ordered) => if ordered { emit(st, "</ol>"@) } else { emit(st, "</ul>"@) },
        TagKind::Item => emit(st, "</li>"@),
        TagKind::Emphasis => emit(st, "</em>"@),
        TagKind::Strong => emit(st, "</strong>"@),
        TagKind::Strikethrough => emit(st, "</s>"@),
        TagKind::Link => emit(st, "</a>"@),
        TagKind::Image => {
            let img = match st.image {
                Some(img) => img,
                None => PendingImage { dest: Seq::empty(), title: Seq::empty(), alt: Seq::empty() },
            };
            StyledState { image: None, ..emit(st, image_tag(img)) }
        },
        TagKind::Table => emit(st, "</table>"@),
        TagKind::TableHead => StyledState { in_head: false, ..emit(st, "</thead>"@) },
        TagKind::TableRow => emit(st, "</tr>"@),
        TagKind::TableCell => if st.in_head { emit(st, "</th>"@) } else { emit(st, "</td>"@) },
        TagKind::Other => emit(st, e.html),
    }
}

/// One event. Inside an image only its text counts, as the image's `alt`,
/// until the image ends; raw HTML gets its elements styled, marked text in `color`.
pub open spec fn styled_step(st: StyledState, e: MdEventInfo, color: Seq<char>) -> StyledState {
    match e.kind {
        EventKind::Start => if st.image is Some { st } else { styled_start(st, e) },
        EventKind::End => if st.image is Some && e.tag != TagKind::Image { st } else { styled_end(st, e) },
        EventKind::Text => match st.image {
            Some(img) => StyledState { image: Some(PendingImage { alt: img.alt + e.text, ..img }), ..st },
            None => emit(st, xml_escaped(e.text)),
        },
        _ => if st.image is Some {
            st
        } else {
            match e.kind {
                EventKind::Code => emit(st, INLINE_CODE_OPEN@ + xml_escaped(e.text) + "</code>"@),
                EventKind::Rule => emit(st, RULE@),
                EventKind::TaskListMarker(checked) => if checked { emit(st, CHECKBOX_CHECKED@) } else { emit(st, CHECKBOX_UNCHECKED@) },
                EventKind::Html => emit(st, styled_html(e.text, color)),
                EventKind::InlineHtml => emit(st, styled_html(e.text, color)),
                _ => emit(st, e.html),
            }
        },
    }
}

/// The state after the events, from an empty body outside any table or image.
pub open spec fn styled_run(events: Seq<MdEventInfo>, color: Seq<char>) -> StyledState
    decreases events.len(),
{
    if events.len() == 0 {
        StyledState { body: Seq::empty(), rows: 0, in_head: false, image: None }
    } else {
        styled_step(styled_run(events.drop_last(), color), events.last(), color)
    }
}

/// The inline-styled body of the events, marked text in the configured
/// highlight color or the default one.
pub open spec fn styled_body(events: Seq<MdEventInfo>, highlight_color: Seq<char>) -> Seq<char> {
    styled_run(events, mark_color(highlight_color)).body
}

/// The inline-styled HTML of SMD `text` under `config`: the SMD preprocessing,
/// then pulldown-cmark's events of its result, each styled in place.
pub open spec fn styled_html_of(text: Seq<char>, config: Config) -> Seq<char> {
    let pre = smd_preprocess(text, smd_symbols(config), verbatim_ranges(markdown_events(text)), item_ranges(markdown_events(text)), literal_ranges(markdown_events(text)));
    styled_body(markdown_events(pre.0), config.appearance.highlight_color@)
}

fn heading_style_str(level: u8) -> (r: &'static str)
    ensures
        r@ == heading_style(level),
{
    if level == 1 { H1_STYLE } else if level == 2 { H2_STYLE } else if level == 3 { H3_STYLE }
    else if level == 4 { H4_STYLE } else if level == 5 { H5_STYLE } else { H6_STYLE }
}

fn push_title_attr(s: &mut String, title: &str)
    ensures
        final(s)@ == old(s)@ + title_attr(title@),
{
    if !title.is_empty() {
        push_str(s, " title=\"");
        let t = xml_escape(title);
        push_str(s, t.as_str());
        push_str(s, "\"");
    } else {
        assert(old(s)@ + title_attr(title@) =~= old(s)@);
    }
}

/// The styled renderer at work: the body written so far, the table state,
/// and the parts of an image whose end has not come (read only inside one).
struct StyledWriter {
    body: String,
    rows: usize,
    in_head: bool,
    in_image: bool,
    image_dest: String,
    image_title: String,
    image_alt: String,
}

impl StyledWriter {
    spec fn state(&self) -> StyledState {
        StyledState {
            body: self.body@,
            rows: self.rows as nat,
            in_head: self.in_head,
            image: if self.in_image {
                Some(PendingImage { dest: self.image_dest@, title: self.image_title@, alt: self.image_alt@ })
            } else {
                None
            },
        }
    }

    fn start(&mut self, e: &MdEvent)
        requires
            old(self).rows < usize::MAX,
            !old(self).in_image,
        ensures
            final(self).state() == styled_start(old(self).state(), e@),
    {
        let ghost before = self.body@;
        match e.tag {
            TagKind::Paragraph => push_str(&mut self.body, PARAGRAPH_OPEN),
            TagKind::Heading(l) => {
                push_str(&mut self.body, "<h");
                push_decimal(&mut self.body, l as u64);
                push_str(&mut self.body, " style=\"");
                push_str(&mut self.body, heading_style_str(l));
                push_str(&mut self.body, "\">");
                assert(self.body@ =~= before + ("<h"@ + decimal(l as nat) + " style=\""@ + heading_style(l) + "\">"@));
            },
            TagKind::BlockQuote => push_str(&mut self.body, BLOCKQUOTE_OPEN),
            TagKind::CodeBlock => push_str(&mut self.body, CODE_BLOCK_OPEN),
            TagKind::List(_) => match e.list_start {
                Some(n) => {
                    push_str(&mut self.body, "<ol start=\"");
                    push_decimal(&mut self.body, n);
                    push_str(&mut self.body, ORDERED_LIST_REST);
                    assert(self.body@ =~= before + ("<ol start=\""@ + decimal(n as nat) + ORDERED_LIST_REST@));
                },
                None => push_str(&mut self.body, BULLET_LIST_OPEN),
            },
            TagKind::Item => push_str(&mut self.body, ITEM_OPEN),
            TagKind::Emphasis => push_str(&mut self.body, EMPHASIS_OPEN),
            TagKind::Strong => push_str(&mut self.body, STRONG_OPEN),
            TagKind::Strikethrough => push_str(&mut self.body, STRIKE_OPEN),
            TagKind::Link => {
                push_str(&mut self.body, "<a href=\"");
                let url = xml_escape(e.url.as_str());
                push_str(&mut self.body, url.as_str());
                push_str(&mut self.body, "\"");
                push_title_attr(&mut self.body, e.title.as_str());
                push_str(&mut self.body, LINK_REST);
                assert(self.body@ =~= before + ("<a href=\""@ + xml_escaped(e.url@) + "\""@ + title_attr(e.title@) + LINK_REST@));
            },
            TagKind::Image => {
                self.in_image = true;
                self.image_dest = e.url.clone();
                self.image_title = e.title.clone();
                self.image_alt = String::new();
            },
            TagKind::Table => {
                push_str(&mut self.body, TABLE_OPEN);
                self.rows = 0;
            },
            TagKind::TableHead => {
                push_str(&mut self.body, TABLE_HEAD_OPEN);
                self.in_head = true;
            },
            TagKind::TableRow => if self.in_head {
                push_str(&mut self.body, "<tr>");
            } else {
                push_str(&mut self.body, "<tr style=\"background-color: ");
                if self.rows % 2 == 0 {
                    push_str(&mut self.body, "#ffffff");
                } else {
                    push_str(&mut self.body, "#f6f8fa");
                }
                push_str(&mut self.body, ";\">");
                let ghost bg = if (self.rows as nat) % 2 == 0 { "#ffffff"@ } else { "#f6f8fa"@ };
                assert(self.body@ =~= before + ("<tr style=\"background-color: "@ + bg + ";\">"@));
                self.rows = self.rows + 1;
            },
            TagKind::TableCell => if self.in_head {
                push_str(&mut self.body, HEADER_CELL_OPEN);
            } else {
                push_str(&mut self.body, BODY_CELL_OPEN);
            },
            TagKind::Other => push_str(&mut self.body, e.html.as_str()),
        }
    }

    fn end(&mut self, e: &MdEvent)
        ensures
            final(self).state() == styled_end(old(self).state(), e@),
    {
        let ghost before = self.body@;
        match e.tag {
            TagKind::Paragraph => push_str(&mut self.body, "</p>"),
            TagKind::Heading(l) => {
                push_str(&mut self.body, "</h");
                push_decimal(&mut self.body, l as u64);
                push_str(&mut self.body, ">");
                assert(self.body@ =~= before + ("</h"@ + decimal(l as nat) + ">"@));
            },
            TagKind::BlockQuote => push_str(&mut self.body, "</blockquote>"),
            TagKind::CodeBlock => push_str(&mut self.body, "</code></pre>"),
            TagKind::List(ordered) => if ordered {
                push_str(&mut self.body, "</ol>");
            } else {
                push_str(&mut self.body, "</ul>");
            },
            TagKind::Item => push_str(&mut self.body, "</li>"),
            TagKind::Emphasis => push_str(&mut self.body, "</em>"),
            TagKind::Strong => push_str(&mut self.body, "</strong>"),
            TagKind::Strikethrough => push_str(&mut self.body, "</s>"),
            TagKind::Link => push_str(&mut self.body, "</a>"),
            TagKind::Image => {
                let ghost img = match old(self).state().image {
                    Some(img) => img,
                    None => PendingImage { dest: Seq::empty(), title: Seq::empty(), alt: Seq::empty() },
                };
                if !self.in_image {
                    self.image_dest = String::new();
                    self.image_title = String::new();
                    self.image_alt = String::new();
                }
                push_str(&mut self.body, "<img src=\"");
                let dest = xml_escape(self.image_dest.as_str());
                push_str(&mut self.body, dest.as_str());
                push_str(&mut self.body, "\" alt=\"");
                let alt = xml_escape(self.image_alt.as_str());
                push_str(&mut self.body, alt.as_str());
                push_str(&mut self.body, "\"");
                push_title_attr(&mut self.body, self.image_title.as_str());
                push_str(&mut self.body, IMAGE_REST);
                assert(self.body@ =~= before + image_tag(img));
                self.in_image = false;
            },
            TagKind::Table => push_str(&mut self.body, "</table>"),
            TagKind::TableHead => {
                push_str(&mut self.body, "</thead>");
                self.in_head = false;
            },
            TagKind::TableRow => push_str(&mut self.body, "</tr>"),
            TagKind::TableCell => if self.in_head {
                push_str(&mut self.body, "</th>");
            } else {
                push_str(&mut self.body, "</td>");
            },
            TagKind::Other => push_str(&mut self.body, e.html.as_str()),
        }
    }

    fn step(&mut self, e: &MdEvent, color: &str)
        requires
            old(self).rows < usize::MAX,
        ensures
            final(self).state() == styled_step(old(self).state(), e@, color@),
    {
        match e.kind {
            EventKind::Start => {
                if !self.in_image {
                    self.start(e);
                }
            },
            EventKind::End => {
                if !self.in_image || matches!(e.tag, TagKind::Image) {
                    self.end(e);
                }
            },
            EventKind::Text => {
                if self.in_image {
                    push_str(&mut self.image_alt, e.text.as_str());
                } else {
                    let t = xml_escape(e.text.as_str());
                    push_str(&mut self.body, t.as_str());
                }
            },
            _ => {
                if !self.in_image {
                    let ghost before = self.body@;
                    match e.kind {
                        EventKind::Code => {
                            push_str(&mut self.body, INLINE_CODE_OPEN);
                            let t = xml_escape(e.text.as_str());
                            push_str(&mut self.body, t.as_str());
                            push_str(&mut self.body, "</code>");
                            assert(self.body@ =~= before + (INLINE_CODE_OPEN@ + xml_escaped(e.text@) + "</code>"@));
                        },
                        EventKind::Rule => push_str(&mut self.body, RULE),
                        EventKind::TaskListMarker(checked) => if checked {
                            push_str(&mut self.body, CHECKBOX_CHECKED);
                        } else {
                            push_str(&mut self.body, CHECKBOX_UNCHECKED);
                        },
                        EventKind::Html | EventKind::InlineHtml => {
                            let h = style_html(e.text.as_str(), color);
                            push_str(&mut self.body, h.as_str());
                        },
                        _ => push_str(&mut self.body, e.html.as_str()),
                    }
                }
            },
        }
    }
}

proof fn lemma_styled_rows_bound(events: Seq<MdEventInfo>, color: Seq<char>)
    ensures
        styled_run(events, color).rows <= events.len(),
    decreases events.len(),
{
    if events.len() > 0 {
        lemma_styled_rows_bound(events.drop_last(), color);
    }
}

/// Renders markdown events into an inline-styled body; raw HTML gets its SMD
/// elements styled, marked text in `highlight_color` or, if that is empty,
/// the default highlight.
pub fn render_events_styled(events: &[MdEvent], highlight_color: &str) -> (r: String)
    ensures
        r@ == styled_body(event_views(events@), highlight_color@),
{
    let color: &str = if highlight_color.is_empty() { "#fff2a8" } else { highlight_color };
    let mut w = StyledWriter {
        body: String::new(),
        rows: 0,
        in_head: false,
        in_image: false,
        image_dest: String::new(),
        image_title: String::new(),
        image_alt: String::new(),
    };
    let ghost views = event_views(events@);
    let mut k: usize = 0;
    while k < events.len()
        invariant
            k <= events@.len(),
            views == event_views(events@),
            color@ == mark_color(highlight_color@),
            w.state() == styled_run(views.take(k as int), color@),
        decreases events@.len() - k,
    {
        proof {
            lemma_styled_rows_bound(views.take(k as int), color@);
            assert(views.take(k + 1).drop_last() =~= views.take(k as int));
            assert(views.take(k + 1).last() == events@[k as int]@);
        }
        w.step(&events[k], color);
        k += 1;
    }
    assert(views.take(events@.len() as int) =~= views);
    w.body
}

/// Renders SMD `text` under `config` into a body that carries its styles
/// inline, for a document that stands alone.
pub fn render_to_html_inline(text: &str, config: &Config) -> (r: String)
    ensures
        r@ == styled_html_of(text@, *config),
{
    let (preprocessed, _) = preprocess_smd(text, config);
    let doc = parse_markdown(preprocessed.as_str());
    let events = events_of(&doc);
    render_events_styled(events.as_slice(), config.appearance.highlight_color.as_str())
}

/// Replacing a pattern that occurs nowhere leaves the text as it is.
pub proof fn lemma_replace_absent(s: Seq<char>, pat: Seq<char>, rep: Seq<char>)
    requires
        forall|i: int| 0 <= i < s.len() ==> !#[trigger] symbol_at(s, i, pat),
    ensures
        replace_seq(s, pat, rep) == s,
    decreases s.len(),
{
    if s.len() > 0 {
        assert(!symbol_at(s, 0, pat));
        let t = s.skip(1);
        assert forall|i: int| 0 <= i < t.len() implies !#[trigger] symbol_at(t, i, pat) by {
            assert(!symbol_at(s, i + 1, pat));
            if pat.len() > 0 && i + pat.len() <= t.len() {
                assert(t.subrange(i, i + pat.len()) =~= s.subrange(i + 1, i + 1 + pat.len()));
            }
        }
        lemma_replace_absent(t, pat, rep);
        assert(seq![s[0]] + t =~= s);
    }
}

proof fn lemma_absent_by_char(s: Seq<char>, pat: Seq<char>, k: int)
    requires
        0 <= k < pat.len(),
        forall|j: int| 0 <= j < s.len() ==> s[j] != pat[k],
    ensures
        forall|i: int| 0 <= i < s.len() ==> !#[trigger] symbol_at(s, i, pat),
{
    assert forall|i: int| 0 <= i < s.len() implies !#[trigger] symbol_at(s, i, pat) by {
        if symbol_at(s, i, pat) {
            assert(s.subrange(i, i + pat.len())[k] == s[i + k]);
        }
    }
}

proof fn lemma_absent_after_open(s: Seq<char>, pat: Seq<char>, k: int)
    requires
        0 <= k < pat.len(),
        pat[0] == '<',
        forall|j: int| 1 <= j < s.len() ==> s[j] != '<',
        k < s.len() ==> s[k] != pat[k],
    ensures
        forall|i: int| 0 <= i < s.len() ==> !#[trigger] symbol_at(s, i, pat),
{
    assert forall|i: int| 0 <= i < s.len() implies !#[trigger] symbol_at(s, i, pat) by {
        if symbol_at(s, i, pat) {
            if i == 0 {
                assert(s.subrange(0, pat.len() as int)[k] == s[k]);
            } else {
                assert(s.subrange(i, i + pat.len())[0] == s[i]);
            }
        }
    }
}

/// The replacements of `styled_html` before the ones of `<sup>` and `<sub>`
/// leave alone raw HTML that opens with `<sub>` or `<sup>` followed by text
/// with no markup and no quote.
proof fn lemma_styles_before_scripts(open: Seq<char>, t: Seq<char>, color: Seq<char>)
    requires
        open == "<sub>"@ || open == "<sup>"@,
        forall|j: int| 0 <= j < t.len() ==> t[j] != '<' && t[j] != '"',
    ensures
        ({
            let s = replace_seq(open + t, "class=\"spoiler\""@, SPOILER_STYLED@);
            let s = replace_seq(s, "class=\"footnote\""@, FOOTNOTE_STYLED@);
            let s = replace_seq(s, "class=\"named-quote\""@, NAMED_QUOTE_STYLED@);
            let s = replace_seq(s, "class=\"quote-author\""@, QUOTE_AUTHOR_STYLED@);
            let s = replace_seq(s, "<details>"@, DETAILS_STYLED@);
            let s = replace_seq(s, "<summary>"@, SUMMARY_STYLED@);
            let s = replace_seq(s, "class=\"error\""@, ERROR_STYLED@);
            let s = replace_seq(s, "<mark>"@, "<mark style=\"background-color: "@ + color + ";\">"@);
            let s = replace_seq(s, "<strong>"@, STRONG_OPEN@);
            let s = replace_seq(s, "<em>"@, EMPHASIS_OPEN@);
            let s = replace_seq(s, "<s>"@, STRIKE_OPEN@);
            replace_seq(s, "<u>"@, "<u style=\"text-decoration: underline;\">"@)
        }) == open + t,
{
    let s = open + t;
    reveal_strlit("<sub>");
    reveal_strlit("<sup>");
    reveal_strlit("class=\"spoiler\"");
    reveal_strlit("class=\"footnote\"");
    reveal_strlit("class=\"named-quote\"");
    reveal_strlit("class=\"quote-author\"");
    reveal_strlit("class=\"error\"");
    reveal_strlit("<details>");
    reveal_strlit("<summary>");
    reveal_strlit("<mark>");
    reveal_strlit("<strong>");
    reveal_strlit("<em>");
    reveal_strlit("<s>");
    reveal_strlit("<u>");
    assert(s.len() >= 5);
    assert forall|j: int| 0 <= j < s.len() implies s[j] != '"' by {
        if j >= 5 { assert(s[j] == t[j - 5]); }
    }
    assert forall|j: int| 1 <= j < s.len() implies s[j] != '<' by {
        if j >= 5 { assert(s[j] == t[j - 5]); }
    }
    assert(s[1] == 's' && s[2] == 'u' && (s[3] == 'b' || s[3] == 'p'));
    lemma_absent_by_char(s, "class=\"spoiler\""@, 6);
    lemma_replace_absent(s, "class=\"spoiler\""@, SPOILER_STYLED@);
    lemma_absent_by_char(s, "class=\"footnote\""@, 6);
    lemma_replace_absent(s, "class=\"footnote\""@, FOOTNOTE_STYLED@);
    lemma_absent_by_char(s, "class=\"named-quote\""@, 6);
    lemma_replace_absent(s, "class=\"named-quote\""@, NAMED_QUOTE_STYLED@);
    lemma_absent_by_char(s, "class=\"quote-author\""@, 6);
    lemma_replace_absent(s, "class=\"quote-author\""@, QUOTE_AUTHOR_STYLED@);
    lemma_absent_after_open(s, "<details>"@, 1);
    lemma_replace_absent(s, "<details>"@, DETAILS_STYLED@);
    lemma_absent_after_open(s, "<summary>"@, 3);
    lemma_replace_absent(s, "<summary>"@, SUMMARY_STYLED@);
    lemma_absent_by_char(s, "class=\"error\""@, 6);
    lemma_replace_absent(s, "class=\"error\""@, ERROR_STYLED@);
    lemma_absent_after_open(s, "<mark>"@, 1);
    lemma_replace_absent(s, "<mark>"@, "<mark style=\"background-color: "@ + color + ";\">"@);
    lemma_absent_after_open(s, "<strong>"@, 2);
    lemma_replace_absent(s, "<strong>"@, STRONG_OPEN@);
    lemma_absent_after_open(s, "<em>"@, 1);
    lemma_replace_absent(s, "<em>"@, EMPHASIS_OPEN@);
    lemma_absent_after_open(s, "<s>"@, 2);
    lemma_replace_absent(s, "<s>"@, STRIKE_OPEN@);
    lemma_absent_after_open(s, "<u>"@, 1);
    lemma_replace_absent(s, "<u>"@, "<u style=\"text-decoration: underline;\">"@);
}

/// In an export, subscript is drawn lowered and superscript raised: raw
/// HTML that opens `<sub>` (or `<sup>`) before text with no markup gets
/// the inline style `vertical-align: sub` (or `super`) in a smaller font,
/// and the text after it is left as it is.
pub proof fn lemma_scripts_styled(t: Seq<char>, color: Seq<char>)
    requires
        forall|j: int| 0 <= j < t.len() ==> t[j] != '<' && t[j] != '"',
    ensures
        styled_html("<sub>"@ + t, color) == "<sub style=\"vertical-align: sub; font-size: smaller;\">"@ + t,
        styled_html("<sup>"@ + t, color) == "<sup style=\"vertical-align: super; font-size: smaller;\">"@ + t,
{
    let sub = "<sub>"@;
    let sup = "<sup>"@;
    let sub_styled = "<sub style=\"vertical-align: sub; font-size: smaller;\">"@;
    let sup_styled = "<sup style=\"vertical-align: super; font-size: smaller;\">"@;
    reveal_strlit("<sub>");
    reveal_strlit("<sup>");
    reveal_strlit("<sup style=\"vertical-align: super; font-size: smaller;\">");
    lemma_styles_before_scripts(sub, t, color);
    lemma_styles_before_scripts(sup, t, color);
    assert forall|j: int| 0 <= j < t.len() implies t[j] != sub[0] && t[j] != sup[0] by {}
    // `<sub>` followed by plain text: `<sup>` is absent, `<sub>` is found once, at the start.
    let s = sub + t;
    assert forall|j: int| 1 <= j < s.len() implies s[j] != '<' by {
        if j >= 5 { assert(s[j] == t[j - 5]); }
    }
    lemma_absent_after_open(s, sup, 3);
    lemma_replace_absent(s, sup, sup_styled);
    assert(s.subrange(0, 5) =~= sub);
    assert(symbol_at(s, 0, sub));
    assert(s.skip(5) =~= t);
    lemma_absent_by_char(t, sub, 0);
    lemma_replace_absent(t, sub, sub_styled);
    assert(replace_seq(s, sub, sub_styled) == sub_styled + replace_seq(s.skip(5), sub, sub_styled));
    // `<sup>` followed by plain text: `<sup>` is found once, then `<sub>` is absent.
    let u = sup + t;
    assert(u.subrange(0, 5) =~= sup);
    assert(symbol_at(u, 0, sup));
    assert(u.skip(5) =~= t);
    lemma_absent_by_char(t, sup, 0);
    lemma_replace_absent(t, sup, sup_styled);
    assert(replace_seq(u, sup, sup_styled) == sup_styled + replace_seq(u.skip(5), sup, sup_styled));
    let v = sup_styled + t;
    assert forall|j: int| 1 <= j < v.len() implies v[j] != '<' by {
        if j >= sup_styled.len() { assert(v[j] == t[j - sup_styled.len()]); }
    }
    lemma_absent_after_open(v, sub, 3);
    lemma_replace_absent(v, sub, sub_styled);
}

} // verus!
