use sfmde::config::Config;
use sfmde::parser::markdown::{EventKind, TagKind};
use sfmde::parser::render_to_html_inline;
use sfmde::parser::renderer::{parse_events, MdEvent};
use sfmde::parser::styled::{render_events_styled, replace_all, style_html};

fn export(text: &str) -> String {
    render_to_html_inline(text, &Config::default())
}

const P: &str = r#"<p style="margin-top: 0; margin-bottom: 16px; line-height: 1.6;">"#;
const IMG_STYLE: &str = r#" style="max-width: 100%; box-sizing: border-box; display: block; margin: 16px 0;" />"#;

fn ev(kind: EventKind, tag: TagKind, text: &str) -> MdEvent {
    MdEvent {
        kind,
        tag,
        list_start: None,
        start: 0,
        end: 0,
        text: text.to_string(),
        url: String::new(),
        title: String::new(),
        html: String::new(),
        autolink: false,
    }
}

#[test]
fn export_heading_has_inline_style() {
    assert_eq!(
        export("# Title"),
        r#"<h1 style="font-size: 2em; border-bottom: 1px solid #eaecef; padding-bottom: 0.3em; margin-top: 24px; margin-bottom: 16px; font-weight: 600; color: #24292f;">Title</h1>"#
    );
}

#[test]
fn export_bold_symbol_is_styled() {
    assert_eq!(export("**b**"), format!("{}{}b</strong></p>", P, r#"<strong style="font-weight: bold;">"#));
}

#[test]
fn export_highlight_uses_default_color() {
    assert!(export("==x==").contains(r#"<mark style="background-color: #fff2a8;">x</mark>"#));
}

#[test]
fn export_highlight_uses_configured_color() {
    let mut c = Config::default();
    c.appearance.highlight_color = "#00ff00".to_string();
    assert!(render_to_html_inline("==x==", &c).contains(r#"<mark style="background-color: #00ff00;">x</mark>"#));
}

#[test]
fn export_inline_code_is_escaped() {
    let out = export("`a<b`");
    assert!(out.contains(">a&lt;b</code>"));
    assert!(out.contains(r#"<code style="padding: 0.25em 0.4em;"#));
}

#[test]
fn export_image_uses_text_as_alt() {
    assert_eq!(export("![alt text](pic.png)"), format!(r#"{}<img src="pic.png" alt="alt text"{}</p>"#, P, IMG_STYLE));
}

#[test]
fn export_image_title() {
    assert!(export(r#"![a](p.png "T")"#).contains(r#"<img src="p.png" alt="a" title="T" style="#));
}

#[test]
fn export_link_is_escaped() {
    assert!(export("[site](http://a.b?x=1&y=2)")
        .contains(r#"<a href="http://a.b?x=1&amp;y=2" style="color: #0969da; text-decoration: none;">site</a>"#));
}

#[test]
fn export_table_rows_alternate() {
    let out = export("| a | b |\n|---|---|\n| 1 | 2 |\n| 3 | 4 |\n| 5 | 6 |");
    assert!(out.contains(r#"<thead style="font-weight: 600;">"#));
    assert!(out.contains(">a</th>"));
    assert!(out.contains(">1</td>"));
    let white = out.matches(r#"<tr style="background-color: #ffffff;">"#).count();
    let shaded = out.matches(r#"<tr style="background-color: #f6f8fa;">"#).count();
    assert_eq!((white, shaded), (2, 1));
    let first = out.find("#ffffff").unwrap();
    let second = out.find("#f6f8fa;\">").unwrap();
    assert!(first < second);
}

#[test]
fn export_task_list_checkbox() {
    assert!(export("- [x] done").contains(r#"<input type="checkbox" checked disabled style="margin-right: 0.3em; vertical-align: middle;" />"#));
    assert!(export("- [ ] open").contains(r#"<input type="checkbox" disabled style="margin-right: 0.3em; vertical-align: middle;" />"#));
}

#[test]
fn export_ordered_list_start() {
    assert!(export("3. a\n4. b").contains(r#"<ol start="3" style="padding-left: 2em; margin-top: 0; margin-bottom: 16px;">"#));
}

#[test]
fn export_spoiler_is_styled() {
    assert!(export("||secret||").contains(r#"<span class="spoiler" style="background-color: #b5bac1; color: #b5bac1;"#));
}

#[test]
fn styled_events_paragraph() {
    let events = vec![
        ev(EventKind::Start, TagKind::Paragraph, ""),
        ev(EventKind::Text, TagKind::Other, "a<b"),
        ev(EventKind::End, TagKind::Paragraph, ""),
    ];
    assert_eq!(render_events_styled(&events, ""), format!("{}a&lt;b</p>", P));
}

#[test]
fn styled_events_image_keeps_only_text() {
    let mut start = ev(EventKind::Start, TagKind::Image, "");
    start.url = "u".to_string();
    let events = vec![
        start,
        ev(EventKind::Text, TagKind::Other, "x"),
        ev(EventKind::Code, TagKind::Other, "c"),
        ev(EventKind::Start, TagKind::Emphasis, ""),
        ev(EventKind::Text, TagKind::Other, "y"),
        ev(EventKind::End, TagKind::Emphasis, ""),
        ev(EventKind::End, TagKind::Image, ""),
    ];
    assert_eq!(render_events_styled(&events, ""), format!(r#"<img src="u" alt="xy"{}"#, IMG_STYLE));
}

#[test]
fn styled_events_fallback_html() {
    let mut e = ev(EventKind::Other, TagKind::Other, "");
    e.html = "<br />\n".to_string();
    assert_eq!(render_events_styled(&[e], ""), "<br />\n");
}

#[test]
fn styled_events_heading_levels() {
    let events = vec![
        ev(EventKind::Start, TagKind::Heading(6), ""),
        ev(EventKind::End, TagKind::Heading(6), ""),
    ];
    assert_eq!(
        render_events_styled(&events, ""),
        r#"<h6 style="font-size: 0.85em; margin-top: 24px; margin-bottom: 16px; font-weight: 600; color: #6a737d;"></h6>"#
    );
}

#[test]
fn style_html_styles_each_element() {
    let out = style_html("<details><summary>S</summary><sup>1</sup><u>x</u></details>", "#abc");
    assert!(out.starts_with(r#"<details style="border: 1px solid #ccc;"#));
    assert!(out.contains(r#"<summary style="cursor: pointer;"#));
    assert!(out.contains(r#"<sup style="vertical-align: super; font-size: smaller;">1</sup>"#));
    assert!(out.contains(r#"<u style="text-decoration: underline;">x</u>"#));
    assert_eq!(style_html("<mark>", "#abc"), r#"<mark style="background-color: #abc;">"#);
}

#[test]
fn style_html_leaves_other_html() {
    assert_eq!(style_html("<div>plain</div>", "#abc"), "<div>plain</div>");
}

#[test]
fn replace_all_is_leftmost_and_non_overlapping() {
    assert_eq!(replace_all("aaa", "aa", "b"), "ba");
    assert_eq!(replace_all("xyx", "x", "<x>"), "<x>y<x>");
    assert_eq!(replace_all("abc", "", "-"), "abc");
    assert_eq!(replace_all("äöä", "ä", "a"), "aöa");
}

#[test]
fn parse_events_gives_the_stream() {
    let events = parse_events("# T");
    assert_eq!(events.len(), 3);
    assert!(matches!(events[0].kind, EventKind::Start));
    assert!(matches!(events[0].tag, TagKind::Heading(1)));
    assert!(matches!(events[1].kind, EventKind::Text));
    assert_eq!(events[1].text, "T");
    assert_eq!((events[1].start, events[1].end), (2, 3));
    assert!(matches!(events[2].kind, EventKind::End));
    assert_eq!(events[2].html, "</h1>\n");
}
