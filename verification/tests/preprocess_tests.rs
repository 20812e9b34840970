use sfmde::config::{Config, FormatterEntry};
use sfmde::parser::emoji::lookup_emoji;
use sfmde::parser::preprocessor::{match_at, preprocess_smd, preprocess_with_verbatim, xml_escape};

fn pre(text: &str) -> (String, Vec<usize>) {
    preprocess_smd(text, &Config::default())
}

#[test]
fn plain_text_passes_with_marks_escaped() {
    let mut c = Config::default();
    c.formatters.italics = FormatterEntry::new("//", true, "i");
    c.formatters.bold = FormatterEntry::new("!!", true, "b");
    c.formatters.underscore = FormatterEntry::new("++", true, "u");
    c.formatters.strikethrough = FormatterEntry::new("--", true, "s");
    c.formatters.subscript = FormatterEntry::new(",,", true, "s");
    let (out, map) = preprocess_smd("a*b_c~d", &c);
    assert_eq!(out, "a\\*b\\_c\\~d");
    assert_eq!(map, vec![0, 1, 1, 2, 3, 3, 4, 5, 5, 6, 7]);
}

#[test]
fn disabled_formatter_is_plain_text() {
    let mut c = Config::default();
    c.formatters.highlight.enabled = false;
    let (out, _) = preprocess_smd("==x==", &c);
    assert_eq!(out, "==x==");
    let (out, _) = pre("==x==");
    assert_eq!(out, "<mark>x</mark>");
}

#[test]
fn map_has_one_entry_per_byte_and_ends_at_source_length() {
    for text in ["", "plain", "**bold** and ==mark==", "é**ü**", "||open", ":smile: ok", "ü**a ||b é", "  x  `c  d`  ÿ"] {
        let (out, map) = pre(text);
        assert_eq!(map.len(), out.len() + 1);
        assert_eq!(*map.last().unwrap(), text.len());
        assert!(map.iter().all(|&b| b <= text.len() && text.is_char_boundary(b)));
        assert!(map.windows(2).all(|w| w[0] <= w[1]));
    }
}

#[test]
fn unclosed_formatter_becomes_error_span() {
    let (out, _) = pre("**open");
    assert_eq!(out, "<span class=\"error\">**open</span>");
}

#[test]
fn verbatim_ranges_are_copied() {
    let (out, map) = preprocess_with_verbatim("a **b** c", &Config::default(), &[(2, 7)], &[], &[]);
    assert_eq!(out, "a **b** c");
    assert_eq!(map, vec![0, 1, 2, 3, 4, 5, 6, 7, 8, 9]);
}

#[test]
fn emoji_is_looked_up() {
    assert_eq!(lookup_emoji("smile"), Some("🙂"));
    assert_eq!(lookup_emoji("no-such-emoji"), None);
    let (out, _) = pre("hi :smile:");
    assert_eq!(out, "hi 🙂");
}

#[test]
fn match_at_finds_symbols() {
    let chars: Vec<char> = "ab**c".chars().collect();
    assert!(match_at(&chars, 2, "**"));
    assert!(!match_at(&chars, 3, "**"));
    assert!(!match_at(&chars, 0, ""));
    assert!(!match_at(&chars, 5, "c"));
}

#[test]
fn escape_leaves_no_angle_brackets() {
    let s = xml_escape("<<a>&>");
    assert!(!s.contains('<') && !s.contains('>'));
    assert_eq!(xml_escape("plain text"), "plain text");
}

#[test]
fn spaces_the_preview_would_collapse_are_kept() {
    let (out, map) = pre("  a  b");
    assert_eq!(out, "\u{a0}\u{a0}a \u{a0}b");
    assert_eq!(map, vec![0, 0, 1, 1, 2, 3, 4, 4, 5, 6]);
}

#[test]
fn structural_spaces_stay_plain() {
    assert_eq!(pre("- outer\n  - inner").0, "- outer\n  - inner");
    assert_eq!(pre("    code").0, "    code");
    assert_eq!(pre("a  \nb").0, "a  \nb");
    assert_eq!(pre("  # Title").0, "  # Title");
    assert_eq!(pre("- a\n\n  b").0, "- a\n\n  b");
    assert_eq!(pre("end  ").0, "end  ");
}

fn config_without_emphasis_marks() -> Config {
    let mut c = Config::default();
    c.formatters.italics = FormatterEntry::new("%%", true, "i");
    c.formatters.bold = FormatterEntry::new("!!", true, "b");
    c.formatters.underscore = FormatterEntry::new("++", true, "u");
    c.formatters.strikethrough = FormatterEntry::new("--", true, "s");
    c.formatters.subscript = FormatterEntry::new(",,", true, "s");
    c
}

#[test]
fn autolinks_are_not_escaped() {
    let c = config_without_emphasis_marks();
    let (out, map) = preprocess_smd("<https://a_b.org/~x*y>", &c);
    assert_eq!(out, "<https://a_b.org/~x*y>");
    assert_eq!(map, (0..=22).collect::<Vec<usize>>());
    let (out, _) = preprocess_smd("<me_you@host.org>", &c);
    assert_eq!(out, "<me_you@host.org>");
    let (out, _) = preprocess_smd("a_b <https://c_d.org>", &c);
    assert_eq!(out, "a\\_b <https://c_d.org>");
}

#[test]
fn math_spans_are_not_escaped() {
    let c = config_without_emphasis_marks();
    let (out, _) = preprocess_smd("x $a_b * c$ y_z", &c);
    assert_eq!(out, "x $a_b * c$ y\\_z");
    let (out, _) = preprocess_smd("$$a_1  b$$", &c);
    assert_eq!(out, "$$a_1  b$$");
}

#[test]
fn literal_ranges_skip_escaping_and_spacing() {
    let (out, map) = preprocess_with_verbatim("a_b  c_d", &config_without_emphasis_marks(), &[], &[], &[(0, 5)]);
    assert_eq!(out, "a_b  c\\_d");
    assert_eq!(map, vec![0, 1, 2, 3, 4, 5, 6, 6, 7, 8]);
}
