//! The SMD inline preprocessor: it turns the configured formatting symbols
//! into HTML before the markdown parser sees the text, and keeps, for every
//! byte it writes, the byte of the source it came from.

use vstd::prelude::*;
use crate::config::{Config, FormatterEntry};
use crate::markup::{line_start, line_start_at};
use crate::parser::emoji::{emoji_for, lookup_emoji};
use crate::parser::markdown::{markdown_events, parse_markdown, EventKind, MdEventInfo, ParsedMarkdown, TagKind};
use crate::text::{
    byte_len, char_len_utf8, char_width, lemma_utf8_len_take_le, lemma_utf8_len_take_push,
    lemma_utf8_len_take_strict, push_char, push_str, str_eq, string_from_chars, to_chars, utf8_len, lemma_utf8_len_concat,
};

verus! {

/// The escape of one character for XML text.
pub open spec fn escape_char(c: char) -> Seq<char> {
    if c == '&' {
        "&amp;"@
    } else if c == '<' {
        "&lt;"@
    } else if c == '>' {
        "&gt;"@
    } else {
        seq![c]
    }
}

/// `s` with `&`, `<` and `>` escaped for XML text.
pub open spec fn xml_escaped(s: Seq<char>) -> Seq<char>
    decreases s.len(),
{
    if s.len() == 0 {
        Seq::empty()
    } else {
        xml_escaped(s.drop_last()) + escape_char(s.last())
    }
}

/// Escapes `&`, `<` and `>` for XML text.
pub fn xml_escape(s: &str) -> (r: String)
    ensures
        r@ == xml_escaped(s@),
{
    let chars = to_chars(s);
    let mut r = String::new();
    let mut i: usize = 0;
    while i < chars.len()
        invariant
            i <= chars@.len(),
            chars@ == s@,
            r@ == xml_escaped(chars@.take(i as int)),
        decreases chars@.len() - i,
    {
        let c = chars[i];
        if c == '&' {
            push_str(&mut r, "&amp;");
        } else if c == '<' {
            push_str(&mut r, "&lt;");
        } else if c == '>' {
            push_str(&mut r, "&gt;");
        } else {
            push_char(&mut r, c);
        }
        assert(chars@.take(i + 1).drop_last() =~= chars@.take(i as int));
        i += 1;
    }
    assert(chars@.take(chars@.len() as int) =~= chars@);
    r
}

/// `pattern` occurs in `chars` at `start`; an empty pattern occurs nowhere.
pub open spec fn symbol_at(chars: Seq<char>, start: int, pattern: Seq<char>) -> bool {
    &&& pattern.len() > 0
    &&& 0 <= start
    &&& start + pattern.len() <= chars.len()
    &&& chars.subrange(start, start + pattern.len()) == pattern
}

pub(crate) fn symbol_at_chars(chars: &[char], start: usize, pattern: &[char]) -> (r: bool)
    ensures
        r == symbol_at(chars@, start as int, pattern@),
{
    if pattern.len() == 0 || start > chars.len() || pattern.len() > chars.len() - start {
        return false;
    }
    let n = chars.len();
    let mut j: usize = 0;
    while j < pattern.len()
        invariant
            n == chars@.len(),
            j <= pattern@.len(),
            start + pattern@.len() <= chars@.len(),
            forall|k: int| 0 <= k < j ==> chars@[start + k] == pattern@[k],
        decreases pattern@.len() - j,
    {
        if chars[start + j] != pattern[j] {
            assert(chars@.subrange(start as int, start + pattern@.len())[j as int] != pattern@[j as int]);
            return false;
        }
        j += 1;
    }
    assert(chars@.subrange(start as int, start + pattern@.len()) =~= pattern@);
    true
}

/// Whether `pattern` occurs in `chars` at `start`; an empty pattern never does.
pub fn match_at(chars: &[char], start: usize, pattern: &str) -> (r: bool)
    ensures
        r == symbol_at(chars@, start as int, pattern@),
{
    let p = to_chars(pattern);
    symbol_at_chars(chars, start, p.as_slice())
}

/// `n` copies of the source byte `b`.
pub open spec fn repeat_byte(b: usize, n: nat) -> Seq<usize> {
    Seq::new(n, |k: int| b)
}

/// The map of `s` copied from the source where its character `k` stood at
/// the byte `char_to_byte[start + k]`: one entry per byte written.
pub open spec fn segment_map(s: Seq<char>, char_to_byte: Seq<usize>, start: int) -> Seq<usize>
    decreases s.len(),
{
    if s.len() == 0 {
        Seq::empty()
    } else {
        segment_map(s.drop_last(), char_to_byte, start) + repeat_byte(
            char_to_byte[start + s.len() - 1],
            char_width(s.last()),
        )
    }
}

/// The text being written together with the source byte of each of its bytes.
pub struct StackEntry {
    pub tag_name: String,
    pub html_open: String,
    pub html_close: String,
    /// The byte of `output` where `html_open` was written.
    pub output_start: usize,
    pub raw_symbol: String,
    pub original_byte: usize,
}

/// The preprocessed text and, for each of its bytes, the source byte it came from.
pub struct PreprocessorOutput {
    pub output: String,
    pub map: Vec<usize>,
}

impl PreprocessorOutput {
    pub fn new() -> (r: Self)
        ensures
            r.output@ == Seq::<char>::empty(),
            r.map@ == Seq::<usize>::empty(),
    {
        PreprocessorOutput { output: String::new(), map: Vec::new() }
    }

    /// Writes `c`, each of its bytes mapped to `original_byte`.
    pub fn push_char(&mut self, c: char, original_byte: usize)
        ensures
            final(self).output@ == old(self).output@.push(c),
            final(self).map@ == old(self).map@ + repeat_byte(original_byte, char_width(c)),
    {
        let len = char_len_utf8(c);
        let ghost m0 = self.map@;
        let mut k: usize = 0;
        while k < len
            invariant
                k <= len,
                len == char_width(c),
                self.output@ == old(self).output@,
                self.map@ == m0 + repeat_byte(original_byte, k as nat),
            decreases len - k,
        {
            self.map.push(original_byte);
            assert(self.map@ =~= m0 + repeat_byte(original_byte, (k + 1) as nat));
            k += 1;
        }
        push_char(&mut self.output, c);
    }

    /// Writes `s`, each of its bytes mapped to `original_byte`.
    pub fn push_str(&mut self, s: &str, original_byte: usize)
        ensures
            final(self).output@ == old(self).output@ + s@,
            final(self).map@ == old(self).map@ + repeat_byte(original_byte, utf8_len(s@)),
    {
        let chars = to_chars(s);
        let mut i: usize = 0;
        while i < chars.len()
            invariant
                i <= chars@.len(),
                chars@ == s@,
                self.output@ == old(self).output@ + chars@.take(i as int),
                self.map@ == old(self).map@ + repeat_byte(original_byte, utf8_len(chars@.take(i as int))),
            decreases chars@.len() - i,
        {
            self.push_char(chars[i], original_byte);
            proof {
                lemma_utf8_len_take_push(chars@, i as int);
                assert(chars@.take(i + 1) =~= chars@.take(i as int).push(chars@[i as int]));
            }
            assert(self.map@ =~= old(self).map@ + repeat_byte(original_byte, utf8_len(chars@.take(i + 1))));
            i += 1;
        }
        assert(chars@.take(chars@.len() as int) =~= chars@);
    }

    /// Writes `s`, copied from the source where its character `k` stood at
    /// byte `char_to_byte[start_char_idx + k]`.
    pub fn push_segment(&mut self, s: &str, start_char_idx: usize, char_to_byte: &[usize])
        requires
            start_char_idx + s@.len() <= char_to_byte@.len(),
        ensures
            final(self).output@ == old(self).output@ + s@,
            final(self).map@ == old(self).map@ + segment_map(s@, char_to_byte@, start_char_idx as int),
    {
        let chars = to_chars(s);
        let n = char_to_byte.len();
        let mut i: usize = 0;
        while i < chars.len()
            invariant
                n == char_to_byte@.len(),
                i <= chars@.len(),
                chars@ == s@,
                start_char_idx + s@.len() <= char_to_byte@.len(),
                self.output@ == old(self).output@ + chars@.take(i as int),
                self.map@ == old(self).map@ + segment_map(chars@.take(i as int), char_to_byte@, start_char_idx as int),
            decreases chars@.len() - i,
        {
            let orig_byte = char_to_byte[start_char_idx + i];
            self.push_char(chars[i], orig_byte);
            proof {
                assert(chars@.take(i + 1).drop_last() =~= chars@.take(i as int));
                assert(chars@.take(i + 1) =~= chars@.take(i as int).push(chars@[i as int]));
            }
            assert(self.map@ =~= old(self).map@ + segment_map(chars@.take(i + 1), char_to_byte@, start_char_idx as int));
            i += 1;
        }
        assert(chars@.take(chars@.len() as int) =~= chars@);
    }

    /// Replaces the bytes `range` of the output by `new_str`, whose bytes map
    /// to `original_byte`; the range must lie on character boundaries.
    pub fn replace_range_with_mapped(&mut self, range: std::ops::Range<usize>, new_str: &str, original_byte: usize)
        requires
            range.start <= range.end <= old(self).map@.len(),
            exists|k1: int, k2: int|
                0 <= k1 <= k2 <= old(self).output@.len()
                && utf8_len(#[trigger] old(self).output@.take(k1)) == range.start
                && utf8_len(#[trigger] old(self).output@.take(k2)) == range.end,
        ensures
            forall|k1: int, k2: int|
                0 <= k1 <= k2 <= old(self).output@.len()
                && utf8_len(#[trigger] old(self).output@.take(k1)) == range.start
                && utf8_len(#[trigger] old(self).output@.take(k2)) == range.end
                ==> final(self).output@ == old(self).output@.take(k1) + new_str@ + old(self).output@.skip(k2),
            final(self).map@ == old(self).map@.take(range.start as int) + repeat_byte(original_byte, utf8_len(new_str@))
                + old(self).map@.skip(range.end as int),
    {
        let ghost (k1, k2) = choose|k1: int, k2: int|
            0 <= k1 <= k2 <= old(self).output@.len()
            && utf8_len(#[trigger] old(self).output@.take(k1)) == range.start
            && utf8_len(#[trigger] old(self).output@.take(k2)) == range.end;
        let chars = to_chars(self.output.as_str());
        let total = byte_len(self.output.as_str());
        let ghost s = chars@;
        let mut out = String::new();
        let mut pos: usize = 0;
        let mut k: usize = 0;
        while k < chars.len()
            invariant
                k <= s.len(),
                s == chars@,
                s == old(self).output@,
                total == utf8_len(s),
                0 <= k1 <= k2 <= s.len(),
                utf8_len(s.take(k1)) == range.start,
                utf8_len(s.take(k2)) == range.end,
                range.end <= old(self).map@.len(),
                pos == utf8_len(s.take(k as int)),
                k <= k1 ==> out@ == s.take(k as int),
                k > k1 ==> out@ == s.take(k1) + new_str@ + (if k > k2 { s.subrange(k2, k as int) } else { Seq::empty() }),
            decreases s.len() - k,
        {
            proof {
                if k <= k1 { lemma_utf8_len_take_strict(s, k as int, k1); }
                if k1 <= k { lemma_utf8_len_take_strict(s, k1, k as int); }
                if k <= k2 { lemma_utf8_len_take_strict(s, k as int, k2); }
                if k2 <= k { lemma_utf8_len_take_strict(s, k2, k as int); }
                lemma_utf8_len_take_push(s, k as int);
                lemma_utf8_len_take_le(s, k as int + 1);
            }
            if pos == range.start {
                push_str(&mut out, new_str);
            }
            if pos < range.start || pos >= range.end {
                push_char(&mut out, chars[k]);
            }
            proof {
                if k + 1 <= k1 {
                    assert(out@ =~= s.take(k + 1));
                } else if k + 1 > k2 && k >= k2 {
                    if k == k1 {
                        assert(out@ =~= s.take(k1) + new_str@ + s.subrange(k2, k + 1));
                    } else {
                        assert(out@ =~= s.take(k1) + new_str@ + s.subrange(k2, k + 1));
                    }
                } else {
                    assert(out@ =~= s.take(k1) + new_str@ + (if k + 1 > k2 { s.subrange(k2, k + 1) } else { Seq::empty() }));
                }
            }
            pos = pos + char_len_utf8(chars[k]);
            k += 1;
        }
        if pos == range.start {
            proof {
                lemma_utf8_len_take_strict(s, k1, s.len() as int);
            }
            push_str(&mut out, new_str);
        }
        proof {
            lemma_utf8_len_take_strict(s, k1, s.len() as int);
            assert(s.take(s.len() as int) =~= s);
            if k1 < s.len() {
                if k2 < s.len() {
                    assert(s.subrange(k2, s.len() as int) =~= s.skip(k2));
                } else {
                    assert(s.skip(k2) =~= Seq::<char>::empty());
                }
            } else {
                assert(s.skip(k2) =~= Seq::<char>::empty());
                assert(out@ =~= s.take(k1) + new_str@ + s.skip(k2));
            }
        }
        let new_bytes = byte_len(new_str);
        let mut map: Vec<usize> = Vec::new();
        let mut j: usize = 0;
        while j < range.start
            invariant
                j <= range.start <= range.end <= self.map@.len(),
                self.map@ == old(self).map@,
                map@ == self.map@.take(j as int),
            decreases range.start - j,
        {
            map.push(self.map[j]);
            assert(map@ =~= self.map@.take(j + 1));
            j += 1;
        }
        let mut n: usize = 0;
        while n < new_bytes
            invariant
                n <= new_bytes,
                range.start <= range.end <= self.map@.len(),
                self.map@ == old(self).map@,
                map@ == self.map@.take(range.start as int) + repeat_byte(original_byte, n as nat),
            decreases new_bytes - n,
        {
            map.push(original_byte);
            assert(map@ =~= self.map@.take(range.start as int) + repeat_byte(original_byte, (n + 1) as nat));
            n += 1;
        }
        let mut e: usize = range.end;
        while e < self.map.len()
            invariant
                range.end <= e <= self.map@.len(),
                self.map@ == old(self).map@,
                map@ == self.map@.take(range.start as int) + repeat_byte(original_byte, new_bytes as nat)
                    + self.map@.subrange(range.end as int, e as int),
            decreases self.map@.len() - e,
        {
            map.push(self.map[e]);
            assert(map@ =~= self.map@.take(range.start as int) + repeat_byte(original_byte, new_bytes as nat)
                + self.map@.subrange(range.end as int, e + 1));
            e += 1;
        }
        assert(self.map@.subrange(range.end as int, self.map@.len() as int) =~= self.map@.skip(range.end as int));
        self.output = out;
        self.map = map;
        proof {
            assert forall|a1: int, a2: int|
                0 <= a1 <= a2 <= s.len()
                && utf8_len(#[trigger] s.take(a1)) == range.start
                && utf8_len(#[trigger] s.take(a2)) == range.end
                implies self.output@ == s.take(a1) + new_str@ + s.skip(a2) by {
                if a1 < k1 { lemma_utf8_len_take_strict(s, a1, k1); }
                if k1 < a1 { lemma_utf8_len_take_strict(s, k1, a1); }
                if a2 < k2 { lemma_utf8_len_take_strict(s, a2, k2); }
                if k2 < a2 { lemma_utf8_len_take_strict(s, k2, a2); }
            }
        }
    }
}


/// The symbol of a formatter as the preprocessor sees it: none at all when
/// the formatter is disabled, so that its symbol stays plain text.
pub open spec fn active_symbol(e: FormatterEntry) -> Seq<char> {
    if e.enabled {
        e.symbol@
    } else {
        Seq::empty()
    }
}

fn active_chars(e: &FormatterEntry) -> (r: Vec<char>)
    ensures
        r@ == active_symbol(*e),
{
    if e.enabled {
        to_chars(e.symbol.as_str())
    } else {
        Vec::new()
    }
}

/// A formatter recognised at some position.
pub struct TagMatch {
    pub tag: Seq<char>,
    pub open: Seq<char>,
    pub close: Seq<char>,
    /// The number of characters of the source that the match spans.
    pub skip: int,
}

/// The first index from `j` on that holds `a` or `b`, or the end.
pub open spec fn scan_to(chars: Seq<char>, j: int, a: char, b: char) -> int
    decreases chars.len() - j,
{
    if 0 <= j < chars.len() && chars[j] != a && chars[j] != b {
        scan_to(chars, j + 1, a, b)
    } else {
        j
    }
}

fn scan_to_exec(chars: &Vec<char>, start: usize, a: char, b: char) -> (r: usize)
    requires
        start <= chars@.len(),
    ensures
        r == scan_to(chars@, start as int, a, b),
        start <= r <= chars@.len(),
{
    let mut j = start;
    while j < chars.len() && chars[j] != a && chars[j] != b
        invariant
            start <= j <= chars@.len(),
            scan_to(chars@, start as int, a, b) == scan_to(chars@, j as int, a, b),
        decreases chars@.len() - j,
    {
        j += 1;
    }
    j
}

/// The symbols the preprocessor looks for, one per formatter it knows.
pub struct SmdSymbols {
    pub bold: Seq<char>,
    pub italics: Seq<char>,
    pub underscore: Seq<char>,
    pub strikethrough: Seq<char>,
    pub spoiler: Seq<char>,
    pub highlight: Seq<char>,
    pub superscript: Seq<char>,
    pub subscript: Seq<char>,
    pub footnote: Seq<char>,
    pub font_color: Seq<char>,
    pub font_size: Seq<char>,
    pub named_quote: Seq<char>,
    pub collapse: Seq<char>,
    pub align_left: Seq<char>,
    pub align_right: Seq<char>,
    pub align_center: Seq<char>,
    pub align_justify: Seq<char>,
    pub emoji: Seq<char>,
}

/// The symbols of `c` as the preprocessor sees them.
pub open spec fn smd_symbols(c: Config) -> SmdSymbols {
    SmdSymbols {
        bold: active_symbol(c.formatters.bold),
        italics: active_symbol(c.formatters.italics),
        underscore: active_symbol(c.formatters.underscore),
        strikethrough: active_symbol(c.formatters.strikethrough),
        spoiler: active_symbol(c.formatters.spoiler),
        highlight: active_symbol(c.formatters.highlight),
        superscript: active_symbol(c.formatters.superscript),
        subscript: active_symbol(c.formatters.subscript),
        footnote: active_symbol(c.formatters.footnote),
        font_color: active_symbol(c.formatters.font_color),
        font_size: active_symbol(c.formatters.font_size_change),
        named_quote: active_symbol(c.formatters.named_quote),
        collapse: active_symbol(c.formatters.collapse),
        align_left: active_symbol(c.formatters.align_left),
        align_right: active_symbol(c.formatters.align_right),
        align_center: active_symbol(c.formatters.align_center),
        align_justify: active_symbol(c.formatters.align_justify),
        emoji: active_symbol(c.formatters.emoji_prefix),
    }
}

/// The symbols of a configuration, ready to match.
struct ActiveSymbols {
    bold: Vec<char>,
    italics: Vec<char>,
    underscore: Vec<char>,
    strikethrough: Vec<char>,
    spoiler: Vec<char>,
    highlight: Vec<char>,
    superscript: Vec<char>,
    subscript: Vec<char>,
    footnote: Vec<char>,
    font_color: Vec<char>,
    font_size: Vec<char>,
    named_quote: Vec<char>,
    collapse: Vec<char>,
    align_left: Vec<char>,
    align_right: Vec<char>,
    align_center: Vec<char>,
    align_justify: Vec<char>,
    emoji: Vec<char>,
}

impl ActiveSymbols {
    spec fn view(&self) -> SmdSymbols {
        SmdSymbols {
            bold: self.bold@,
            italics: self.italics@,
            underscore: self.underscore@,
            strikethrough: self.strikethrough@,
            spoiler: self.spoiler@,
            highlight: self.highlight@,
            superscript: self.superscript@,
            subscript: self.subscript@,
            footnote: self.footnote@,
            font_color: self.font_color@,
            font_size: self.font_size@,
            named_quote: self.named_quote@,
            collapse: self.collapse@,
            align_left: self.align_left@,
            align_right: self.align_right@,
            align_center: self.align_center@,
            align_justify: self.align_justify@,
            emoji: self.emoji@,
        }
    }

    fn of(c: &Config) -> (r: Self)
        ensures
            r.view() == smd_symbols(*c),
    {
        ActiveSymbols {
            bold: active_chars(&c.formatters.bold),
            italics: active_chars(&c.formatters.italics),
            underscore: active_chars(&c.formatters.underscore),
            strikethrough: active_chars(&c.formatters.strikethrough),
            spoiler: active_chars(&c.formatters.spoiler),
            highlight: active_chars(&c.formatters.highlight),
            superscript: active_chars(&c.formatters.superscript),
            subscript: active_chars(&c.formatters.subscript),
            footnote: active_chars(&c.formatters.footnote),
            font_color: active_chars(&c.formatters.font_color),
            font_size: active_chars(&c.formatters.font_size_change),
            named_quote: active_chars(&c.formatters.named_quote),
            collapse: active_chars(&c.formatters.collapse),
            align_left: active_chars(&c.formatters.align_left),
            align_right: active_chars(&c.formatters.align_right),
            align_center: active_chars(&c.formatters.align_center),
            align_justify: active_chars(&c.formatters.align_justify),
            emoji: active_chars(&c.formatters.emoji_prefix),
        }
    }
}

/// The formatter whose symbol starts at `i`, tried in a fixed order, with
/// the HTML that opens and closes it and the number of characters it spans.
/// `quote_open` and `collapse_open` say that a named quote or a collapsible
/// section is open: their symbol then only closes it.
pub open spec fn match_tag(chars: Seq<char>, i: int, s: SmdSymbols, quote_open: bool, collapse_open: bool) -> Option<TagMatch> {
    if symbol_at(chars, i, s.bold) {
        Some(TagMatch { tag: "Bold"@, open: "<strong>"@, close: "</strong>"@, skip: s.bold.len() as int })
    } else if symbol_at(chars, i, s.italics) {
        Some(TagMatch { tag: "Italics"@, open: "<em>"@, close: "</em>"@, skip: s.italics.len() as int })
    } else if symbol_at(chars, i, s.underscore) {
        Some(TagMatch { tag: "Underscore"@, open: "<u>"@, close: "</u>"@, skip: s.underscore.len() as int })
    } else if symbol_at(chars, i, s.strikethrough) {
        Some(TagMatch { tag: "Strikethrough"@, open: "<s>"@, close: "</s>"@, skip: s.strikethrough.len() as int })
    } else if symbol_at(chars, i, s.spoiler) {
        Some(TagMatch { tag: "Spoiler"@, open: "<span class=\"spoiler\">"@, close: "</span>"@, skip: s.spoiler.len() as int })
    } else if symbol_at(chars, i, s.highlight) {
        Some(TagMatch { tag: "Highlight"@, open: "<mark>"@, close: "</mark>"@, skip: s.highlight.len() as int })
    } else if symbol_at(chars, i, s.superscript) {
        Some(TagMatch { tag: "Superscript"@, open: "<sup>"@, close: "</sup>"@, skip: s.superscript.len() as int })
    } else if symbol_at(chars, i, s.subscript) {
        Some(TagMatch { tag: "Subscript"@, open: "<sub>"@, close: "</sub>"@, skip: s.subscript.len() as int })
    } else if symbol_at(chars, i, s.footnote) {
        Some(TagMatch { tag: "Footnote"@, open: "<sup class=\"footnote\">"@, close: "</sup>"@, skip: s.footnote.len() as int })
    } else if symbol_at(chars, i, s.font_color) {
        let start = i + s.font_color.len();
        let end = scan_to(chars, start, ' ', ']');
        Some(TagMatch {
            tag: "FontColor"@,
            open: "<span style=\"color: "@ + xml_escaped(chars.subrange(start, end)) + "\">"@,
            close: "</span>"@,
            skip: end - i,
        })
    } else if symbol_at(chars, i, s.font_size) {
        let start = i + s.font_size.len();
        let end = scan_to(chars, start, ' ', ']');
        Some(TagMatch {
            tag: "FontSize"@,
            open: "<span style=\"font-size: "@ + xml_escaped(chars.subrange(start, end)) + "pt\">"@,
            close: "</span>"@,
            skip: end - i,
        })
    } else if symbol_at(chars, i, s.named_quote) {
        if quote_open {
            Some(TagMatch { tag: "NamedQuote"@, open: Seq::empty(), close: Seq::empty(), skip: s.named_quote.len() as int })
        } else {
            let start = i + s.named_quote.len();
            let end = scan_to(chars, start, ' ', '\n');
            Some(TagMatch {
                tag: "NamedQuote"@,
                open: "<blockquote class=\"named-quote\"><cite class=\"quote-author\">"@ + xml_escaped(chars.subrange(start, end)) + "</cite> "@,
                close: "</blockquote>"@,
                skip: if end < chars.len() { end - i + 1 } else { end - i },
            })
        }
    } else if symbol_at(chars, i, s.collapse) {
        if collapse_open {
            Some(TagMatch { tag: "Collapse"@, open: Seq::empty(), close: Seq::empty(), skip: s.collapse.len() as int })
        } else {
            let start = i + s.collapse.len();
            let end = scan_to(chars, start, ' ', '\n');
            Some(TagMatch {
                tag: "Collapse"@,
                open: "<details><summary>"@ + xml_escaped(chars.subrange(start, end)) + "</summary>"@,
                close: "</details>"@,
                skip: if end < chars.len() { end - i + 1 } else { end - i },
            })
        }
    } else if symbol_at(chars, i, s.align_left) {
        Some(TagMatch { tag: "AlignLeft"@, open: "<span style=\"display:block;text-align:left\">"@, close: "</span>"@, skip: s.align_left.len() as int })
    } else if symbol_at(chars, i, s.align_right) {
        Some(TagMatch { tag: "AlignRight"@, open: "<span style=\"display:block;text-align:right\">"@, close: "</span>"@, skip: s.align_right.len() as int })
    } else if symbol_at(chars, i, s.align_center) {
        Some(TagMatch { tag: "AlignCenter"@, open: "<span style=\"display:block;text-align:center\">"@, close: "</span>"@, skip: s.align_center.len() as int })
    } else if symbol_at(chars, i, s.align_justify) {
        Some(TagMatch { tag: "AlignJustify"@, open: "<span style=\"display:block;text-align:justify\">"@, close: "</span>"@, skip: s.align_justify.len() as int })
    } else {
        None
    }
}

/// The exec form of `match_tag`: tag name, opening HTML, closing HTML and span.
fn tag_match(chars: &Vec<char>, i: usize, s: &ActiveSymbols, quote_open: bool, collapse_open: bool) -> (r: Option<(String, String, String, usize)>)
    requires
        i <= chars@.len(),
    ensures
        match r {
            Some((tag, open, close, skip)) => match_tag(chars@, i as int, s.view(), quote_open, collapse_open)
                == Some(TagMatch { tag: tag@, open: open@, close: close@, skip: skip as int })
                && i + skip <= chars@.len(),
            None => match_tag(chars@, i as int, s.view(), quote_open, collapse_open) is None,
        },
{
    let _n = chars.len();
    if symbol_at_chars(chars.as_slice(), i, s.bold.as_slice()) {
        Some(("Bold".to_owned(), "<strong>".to_owned(), "</strong>".to_owned(), s.bold.len()))
    } else if symbol_at_chars(chars.as_slice(), i, s.italics.as_slice()) {
        Some(("Italics".to_owned(), "<em>".to_owned(), "</em>".to_owned(), s.italics.len()))
    } else if symbol_at_chars(chars.as_slice(), i, s.underscore.as_slice()) {
        Some(("Underscore".to_owned(), "<u>".to_owned(), "</u>".to_owned(), s.underscore.len()))
    } else if symbol_at_chars(chars.as_slice(), i, s.strikethrough.as_slice()) {
        Some(("Strikethrough".to_owned(), "<s>".to_owned(), "</s>".to_owned(), s.strikethrough.len()))
    } else if symbol_at_chars(chars.as_slice(), i, s.spoiler.as_slice()) {
        Some(("Spoiler".to_owned(), "<span class=\"spoiler\">".to_owned(), "</span>".to_owned(), s.spoiler.len()))
    } else if symbol_at_chars(chars.as_slice(), i, s.highlight.as_slice()) {
        Some(("Highlight".to_owned(), "<mark>".to_owned(), "</mark>".to_owned(), s.highlight.len()))
    } else if symbol_at_chars(chars.as_slice(), i, s.superscript.as_slice()) {
        Some(("Superscript".to_owned(), "<sup>".to_owned(), "</sup>".to_owned(), s.superscript.len()))
    } else if symbol_at_chars(chars.as_slice(), i, s.subscript.as_slice()) {
        Some(("Subscript".to_owned(), "<sub>".to_owned(), "</sub>".to_owned(), s.subscript.len()))
    } else if symbol_at_chars(chars.as_slice(), i, s.footnote.as_slice()) {
        Some(("Footnote".to_owned(), "<sup class=\"footnote\">".to_owned(), "</sup>".to_owned(), s.footnote.len()))
    } else if symbol_at_chars(chars.as_slice(), i, s.font_color.as_slice()) {
        let start = i + s.font_color.len();
        let end = scan_to_exec(chars, start, ' ', ']');
        let arg = string_from_chars(chars.as_slice(), start, end);
        let mut open = "<span style=\"color: ".to_owned();
        push_str(&mut open, xml_escape(arg.as_str()).as_str());
        push_str(&mut open, "\">");
        Some(("FontColor".to_owned(), open, "</span>".to_owned(), end - i))
    } else if symbol_at_chars(chars.as_slice(), i, s.font_size.as_slice()) {
        let start = i + s.font_size.len();
        let end = scan_to_exec(chars, start, ' ', ']');
        let arg = string_from_chars(chars.as_slice(), start, end);
        let mut open = "<span style=\"font-size: ".to_owned();
        push_str(&mut open, xml_escape(arg.as_str()).as_str());
        push_str(&mut open, "pt\">");
        Some(("FontSize".to_owned(), open, "</span>".to_owned(), end - i))
    } else if symbol_at_chars(chars.as_slice(), i, s.named_quote.as_slice()) {
        if quote_open {
            Some(("NamedQuote".to_owned(), String::new(), String::new(), s.named_quote.len()))
        } else {
            let start = i + s.named_quote.len();
            let end = scan_to_exec(chars, start, ' ', '\n');
            let arg = string_from_chars(chars.as_slice(), start, end);
            let mut open = "<blockquote class=\"named-quote\"><cite class=\"quote-author\">".to_owned();
            push_str(&mut open, xml_escape(arg.as_str()).as_str());
            push_str(&mut open, "</cite> ");
            let skip = if end < chars.len() { end - i + 1 } else { end - i };
            Some(("NamedQuote".to_owned(), open, "</blockquote>".to_owned(), skip))
        }
    } else if symbol_at_chars(chars.as_slice(), i, s.collapse.as_slice()) {
        if collapse_open {
            Some(("Collapse".to_owned(), String::new(), String::new(), s.collapse.len()))
        } else {
            let start = i + s.collapse.len();
            let end = scan_to_exec(chars, start, ' ', '\n');
            let arg = string_from_chars(chars.as_slice(), start, end);
            let mut open = "<details><summary>".to_owned();
            push_str(&mut open, xml_escape(arg.as_str()).as_str());
            push_str(&mut open, "</summary>");
            let skip = if end < chars.len() { end - i + 1 } else { end - i };
            Some(("Collapse".to_owned(), open, "</details>".to_owned(), skip))
        }
    } else if symbol_at_chars(chars.as_slice(), i, s.align_left.as_slice()) {
        Some(("AlignLeft".to_owned(), "<span style=\"display:block;text-align:left\">".to_owned(), "</span>".to_owned(), s.align_left.len()))
    } else if symbol_at_chars(chars.as_slice(), i, s.align_right.as_slice()) {
        Some(("AlignRight".to_owned(), "<span style=\"display:block;text-align:right\">".to_owned(), "</span>".to_owned(), s.align_right.len()))
    } else if symbol_at_chars(chars.as_slice(), i, s.align_center.as_slice()) {
        Some(("AlignCenter".to_owned(), "<span style=\"display:block;text-align:center\">".to_owned(), "</span>".to_owned(), s.align_center.len()))
    } else if symbol_at_chars(chars.as_slice(), i, s.align_justify.as_slice()) {
        Some(("AlignJustify".to_owned(), "<span style=\"display:block;text-align:justify\">".to_owned(), "</span>".to_owned(), s.align_justify.len()))
    } else {
        None
    }
}

/// The end of an emoji name that starts at `j`: the next symbol, newline or space, or the end.
pub open spec fn emoji_name_end(chars: Seq<char>, j: int, sym: Seq<char>) -> int
    decreases chars.len() - j,
{
    if 0 <= j < chars.len() && !symbol_at(chars, j, sym) && chars[j] != '\n' && chars[j] != ' ' {
        emoji_name_end(chars, j + 1, sym)
    } else {
        j
    }
}

/// The emoji written as `sym name sym` at `i`, with the index just after it.
pub open spec fn emoji_at(chars: Seq<char>, i: int, sym: Seq<char>) -> Option<(Seq<char>, int)> {
    if symbol_at(chars, i, sym) {
        let start = i + sym.len();
        let end = emoji_name_end(chars, start, sym);
        if end < chars.len() && symbol_at(chars, end, sym) {
            match emoji_for(chars.subrange(start, end)) {
                Some(e) => Some((e, end + sym.len())),
                None => None,
            }
        } else {
            None
        }
    } else {
        None
    }
}

fn emoji_match(chars: &Vec<char>, i: usize, sym: &Vec<char>) -> (r: Option<(&'static str, usize)>)
    requires
        i <= chars@.len(),
    ensures
        match r {
            Some((e, j)) => emoji_at(chars@, i as int, sym@) == Some((e@, j as int)) && j <= chars@.len(),
            None => emoji_at(chars@, i as int, sym@) is None,
        },
{
    let _n = chars.len();
    if !symbol_at_chars(chars.as_slice(), i, sym.as_slice()) {
        return None;
    }
    let start = i + sym.len();
    let mut end = start;
    while end < chars.len() && !symbol_at_chars(chars.as_slice(), end, sym.as_slice()) && chars[end] != '\n'
        && chars[end] != ' '
        invariant
            start <= end <= chars@.len(),
            emoji_name_end(chars@, start as int, sym@) == emoji_name_end(chars@, end as int, sym@),
        decreases chars@.len() - end,
    {
        end += 1;
    }
    if end < chars.len() && symbol_at_chars(chars.as_slice(), end, sym.as_slice()) {
        let name = string_from_chars(chars.as_slice(), start, end);
        match lookup_emoji(name.as_str()) {
            Some(e) => Some((e, end + sym.len())),
            None => None,
        }
    } else {
        None
    }
}

/// The event is one whose text the preprocessor leaves alone: a code block,
/// inline code, or raw HTML.
pub open spec fn is_verbatim(e: MdEventInfo) -> bool {
    ||| (e.kind == EventKind::Start && e.tag == TagKind::CodeBlock)
    ||| e.kind == EventKind::Code
    ||| e.kind == EventKind::Html
    ||| e.kind == EventKind::InlineHtml
}

/// The byte ranges of the events whose text stays as written, in order.
pub open spec fn verbatim_ranges(events: Seq<MdEventInfo>) -> Seq<(usize, usize)>
    decreases events.len(),
{
    if events.len() == 0 {
        Seq::empty()
    } else if is_verbatim(events.last()) {
        verbatim_ranges(events.drop_last()).push((events.last().start, events.last().end))
    } else {
        verbatim_ranges(events.drop_last())
    }
}

/// The byte ranges of the list items of a parsed document, in order.
pub open spec fn item_ranges(events: Seq<MdEventInfo>) -> Seq<(usize, usize)>
    decreases events.len(),
{
    if events.len() == 0 {
        Seq::empty()
    } else if events.last().kind == EventKind::Start && events.last().tag == TagKind::Item {
        item_ranges(events.drop_last()).push((events.last().start, events.last().end))
    } else {
        item_ranges(events.drop_last())
    }
}

/// The event is one whose plain text the markdown parser reads literally,
/// backslashes included: an autolink or a math span.
pub open spec fn is_literal(e: MdEventInfo) -> bool {
    ||| (e.kind == EventKind::Start && e.autolink)
    ||| e.kind == EventKind::Math
}

/// The byte ranges of the autolinks and math spans of a parsed document, in order.
pub open spec fn literal_ranges(events: Seq<MdEventInfo>) -> Seq<(usize, usize)>
    decreases events.len(),
{
    if events.len() == 0 {
        Seq::empty()
    } else if is_literal(events.last()) {
        literal_ranges(events.drop_last()).push((events.last().start, events.last().end))
    } else {
        literal_ranges(events.drop_last())
    }
}

/// The end of the first range that holds byte `b`.
pub open spec fn verbatim_end(ranges: Seq<(usize, usize)>, b: int) -> Option<usize>
    decreases ranges.len(),
{
    if ranges.len() == 0 {
        None
    } else if ranges[0].0 <= b < ranges[0].1 {
        Some(ranges[0].1)
    } else {
        verbatim_end(ranges.drop_first(), b)
    }
}

fn find_verbatim(ranges: &[(usize, usize)], b: usize) -> (r: Option<usize>)
    ensures
        r == verbatim_end(ranges@, b as int),
{
    let mut k: usize = 0;
    assert(ranges@.skip(0) =~= ranges@);
    while k < ranges.len()
        invariant
            k <= ranges@.len(),
            verbatim_end(ranges@, b as int) == verbatim_end(ranges@.skip(k as int), b as int),
        decreases ranges@.len() - k,
    {
        let (s, e) = ranges[k];
        assert(ranges@.skip(k as int)[0] == ranges@[k as int]);
        if s <= b && b < e {
            return Some(e);
        }
        assert(ranges@.skip(k as int).drop_first() =~= ranges@.skip(k + 1));
        k += 1;
    }
    assert(ranges@.skip(k as int) =~= Seq::<(usize, usize)>::empty());
    None
}

/// The byte where character `k` of `chars` starts, for every `k` up to the end.
pub open spec fn byte_positions(chars: Seq<char>) -> Seq<usize> {
    Seq::new((chars.len() + 1) as nat, |k: int| utf8_len(chars.take(k)) as usize)
}

fn char_to_byte_table(chars: &Vec<char>) -> (r: Vec<usize>)
    requires
        utf8_len(chars@) <= usize::MAX,
    ensures
        r@ == byte_positions(chars@),
{
    let mut r: Vec<usize> = Vec::new();
    let mut byte_offset: usize = 0;
    let mut k: usize = 0;
    while k < chars.len()
        invariant
            k <= chars@.len(),
            utf8_len(chars@) <= usize::MAX,
            byte_offset == utf8_len(chars@.take(k as int)),
            r@ == byte_positions(chars@).take(k as int),
        decreases chars@.len() - k,
    {
        r.push(byte_offset);
        proof {
            lemma_utf8_len_take_push(chars@, k as int);
            lemma_utf8_len_take_le(chars@, k + 1);
            assert(r@ =~= byte_positions(chars@).take(k + 1));
        }
        byte_offset = byte_offset + char_len_utf8(chars[k]);
        k += 1;
    }
    r.push(byte_offset);
    assert(chars@.take(chars@.len() as int) =~= chars@);
    assert(r@ =~= byte_positions(chars@));
    r
}

/// The first index from `j` on whose character starts at or after byte `end_b`, or the end.
pub open spec fn skip_to_byte(chars: Seq<char>, j: int, end_b: int) -> int
    decreases chars.len() - j,
{
    if 0 <= j < chars.len() && utf8_len(chars.take(j)) < end_b {
        skip_to_byte(chars, j + 1, end_b)
    } else {
        j
    }
}

fn skip_to_byte_exec(chars: &Vec<char>, c2b: &Vec<usize>, start: usize, end_b: usize) -> (r: usize)
    requires
        start <= chars@.len(),
        c2b@ == byte_positions(chars@),
        utf8_len(chars@) <= usize::MAX,
    ensures
        r == skip_to_byte(chars@, start as int, end_b as int),
        start <= r <= chars@.len(),
{
    let mut j = start;
    while j < chars.len() && c2b[j] < end_b
        invariant
            start <= j <= chars@.len(),
            c2b@ == byte_positions(chars@),
            utf8_len(chars@) <= usize::MAX,
            skip_to_byte(chars@, start as int, end_b as int) == skip_to_byte(chars@, j as int, end_b as int),
        decreases chars@.len() - j,
    {
        proof {
            lemma_utf8_len_take_le(chars@, j as int);
        }
        j += 1;
    }
    j
}


/// An open formatter on the preprocessor's stack: its tag, the HTML that
/// opened it and the HTML that closes it, the character of the output where
/// its opening starts, the source text it was written with, and the source
/// byte of that text.
pub struct SmdEntry {
    pub tag: Seq<char>,
    pub open: Seq<char>,
    pub close: Seq<char>,
    pub start: int,
    pub raw: Seq<char>,
    pub orig: usize,
}

/// The preprocessor between two steps: the next character to read, what it
/// wrote so far with the source byte of each written byte, and the open formatters.
pub struct SmdState {
    pub i: int,
    pub out: Seq<char>,
    pub map: Seq<usize>,
    pub stack: Seq<SmdEntry>,
}

/// `st` after writing `s`, all of it mapped to the source byte `b`.
pub open spec fn emit(st: SmdState, s: Seq<char>, b: usize) -> SmdState {
    SmdState { i: st.i, out: st.out + s, map: st.map + repeat_byte(b, utf8_len(s)), stack: st.stack }
}

/// The opening of an error span around a formatter that never closed.
pub open spec fn error_open(raw: Seq<char>) -> Seq<char> {
    "<span class=\"error\">"@ + raw
}

/// `st` with the opening HTML of `e` replaced in place by an error span
/// opening that shows the symbol `e` was written with.
pub open spec fn demote(st: SmdState, e: SmdEntry) -> SmdState {
    let b = utf8_len(st.out.take(e.start)) as int;
    SmdState {
        i: st.i,
        out: st.out.take(e.start) + error_open(e.raw) + st.out.skip(e.start + e.open.len()),
        map: st.map.take(b) + repeat_byte(e.orig, utf8_len(error_open(e.raw))) + st.map.skip(b + utf8_len(e.open)),
        stack: st.stack,
    }
}

/// `st` after turning every open formatter above the first `keep` ones into
/// an error span, top first, each span closed at source byte `b`.
pub open spec fn unwind_to(st: SmdState, keep: int, b: usize) -> SmdState
    decreases st.stack.len(),
{
    if st.stack.len() <= keep || st.stack.len() == 0 {
        st
    } else {
        let e = st.stack.last();
        let popped = SmdState { i: st.i, out: st.out, map: st.map, stack: st.stack.drop_last() };
        unwind_to(emit(demote(popped, e), "</span>"@, b), keep, b)
    }
}

/// Some open formatter has the tag `tag`.
pub open spec fn has_tag(stack: Seq<SmdEntry>, tag: Seq<char>) -> bool {
    exists|k: int| 0 <= k < stack.len() && (#[trigger] stack[k]).tag == tag
}

/// The index of the topmost open formatter with the tag `tag`, or -1.
pub open spec fn last_tag_index(stack: Seq<SmdEntry>, tag: Seq<char>) -> int
    decreases stack.len(),
{
    if stack.len() == 0 {
        -1
    } else if stack.last().tag == tag {
        stack.len() - 1
    } else {
        last_tag_index(stack.drop_last(), tag)
    }
}

/// `st` after the formatter `m` recognised at `st.i`: if a formatter with its
/// tag is open, the ones opened after it become error spans and it closes;
/// otherwise it opens.
pub open spec fn apply_match(chars: Seq<char>, st: SmdState, m: TagMatch) -> SmdState {
    let b = utf8_len(chars.take(st.i)) as usize;
    let k = last_tag_index(st.stack, m.tag);
    let next = if k >= 0 {
        let u = unwind_to(st, k + 1, b);
        emit(SmdState { i: u.i, out: u.out, map: u.map, stack: u.stack.drop_last() }, u.stack.last().close, b)
    } else {
        let entry = SmdEntry {
            tag: m.tag,
            open: m.open,
            close: m.close,
            start: st.out.len() as int,
            raw: chars.subrange(st.i, st.i + m.skip),
            orig: b,
        };
        emit(SmdState { i: st.i, out: st.out, map: st.map, stack: st.stack.push(entry) }, m.open, b)
    };
    SmdState { i: st.i + m.skip, out: next.out, map: next.map, stack: next.stack }
}

/// A character of plain text as written for the markdown parser: the
/// emphasis marks of standard markdown are escaped, so that only the
/// configured symbols format.
pub open spec fn plain_text(c: char) -> Seq<char> {
    if c == '*' || c == '_' || c == '~' {
        seq!['\\', c]
    } else {
        seq![c]
    }
}

/// The end of the run of spaces of `chars` that starts at `i`.
pub open spec fn space_run_end(chars: Seq<char>, i: int) -> int
    decreases chars.len() - i,
{
    if 0 <= i < chars.len() && chars[i] == ' ' {
        space_run_end(chars, i + 1)
    } else {
        i
    }
}

/// A character that can open a Markdown block when it starts a line:
/// headings, quotes, tables, list items, rules, fences, HTML and link
/// definitions.
pub open spec fn opens_block(c: char) -> bool {
    c == '#' || c == '>' || c == '|' || c == '-' || c == '*' || c == '+' || c == '_' || c == '='
        || c == '~' || c == '`' || c == '<' || c == '[' || ('0' <= c <= '9')
}

/// The space at `i` is written as a no-break space, so that the preview
/// shows it instead of collapsing it: a space after another space within a
/// line, or one of one to three spaces that indent a line of text. Spaces
/// before a line break or the end of the text, and the indentation of list
/// items (`items` holds their byte ranges) or of any line that starts a
/// Markdown block, stay as they are.
pub open spec fn kept_space(chars: Seq<char>, i: int, items: Seq<(usize, usize)>) -> bool {
    let ls = line_start(chars, i);
    let j = space_run_end(chars, i);
    &&& 0 <= i < chars.len()
    &&& chars[i] == ' '
    &&& j < chars.len()
    &&& chars[j] != '\n' && chars[j] != '\r' && chars[j] != '\t'
    &&& if forall|k: int| ls <= k < i ==> chars[k] == ' ' {
        &&& j - ls <= 3
        &&& !opens_block(chars[j])
        &&& verbatim_end(items, utf8_len(chars.take(ls)) as int) is None
    } else {
        chars[i - 1] == ' '
    }
}

/// What the character at `i` of plain text is written as. Inside an
/// autolink or a math span (`literal` holds their byte ranges) it stands as
/// written, since the markdown parser keeps a backslash there; elsewhere a
/// kept space becomes a no-break space and an emphasis mark is escaped.
pub open spec fn plain_piece(chars: Seq<char>, i: int, items: Seq<(usize, usize)>, literal: Seq<(usize, usize)>) -> Seq<char> {
    if verbatim_end(literal, utf8_len(chars.take(i)) as int) is Some {
        seq![chars[i]]
    } else if kept_space(chars, i, items) {
        seq!['\u{a0}']
    } else {
        plain_text(chars[i])
    }
}

/// One step of the preprocessor at `st.i`: copy a verbatim region, write an
/// emoji, apply a formatter, or write one character of plain text.
pub open spec fn smd_step(chars: Seq<char>, syms: SmdSymbols, verbatim: Seq<(usize, usize)>, items: Seq<(usize, usize)>, literal: Seq<(usize, usize)>, st: SmdState) -> SmdState {
    let i = st.i;
    let b = utf8_len(chars.take(i)) as usize;
    match verbatim_end(verbatim, b as int) {
        Some(end_b) => {
            let j = skip_to_byte(chars, i, end_b as int);
            SmdState {
                i: j,
                out: st.out + chars.subrange(i, j),
                map: st.map + segment_map(chars.subrange(i, j), byte_positions(chars), i),
                stack: st.stack,
            }
        },
        None => match emoji_at(chars, i, syms.emoji) {
            Some((e, j)) => {
                let w = emit(st, e, b);
                SmdState { i: j, out: w.out, map: w.map, stack: w.stack }
            },
            None => match match_tag(chars, i, syms, has_tag(st.stack, "NamedQuote"@), has_tag(st.stack, "Collapse"@)) {
                Some(m) => apply_match(chars, st, m),
                None => {
                    let w = emit(st, plain_piece(chars, i, items, literal), b);
                    SmdState { i: i + 1, out: w.out, map: w.map, stack: w.stack }
                },
            },
        },
    }
}

/// The preprocessor run from `st` to the end of the source.
pub open spec fn smd_run(chars: Seq<char>, syms: SmdSymbols, verbatim: Seq<(usize, usize)>, items: Seq<(usize, usize)>, literal: Seq<(usize, usize)>, st: SmdState) -> SmdState
    decreases chars.len() - st.i,
{
    if st.i < 0 || st.i >= chars.len() {
        st
    } else {
        let next = smd_step(chars, syms, verbatim, items, literal, st);
        if next.i <= st.i || next.i > chars.len() {
            st
        } else {
            smd_run(chars, syms, verbatim, items, literal, next)
        }
    }
}

/// The preprocessed text of `chars` and its map: every formatter left open
/// at the end becomes an error span closed at the end of the source, and the
/// map ends with the source's length in bytes.
pub open spec fn smd_preprocess(chars: Seq<char>, syms: SmdSymbols, verbatim: Seq<(usize, usize)>, items: Seq<(usize, usize)>, literal: Seq<(usize, usize)>) -> (Seq<char>, Seq<usize>) {
    let total = utf8_len(chars) as usize;
    let start = SmdState { i: 0, out: Seq::empty(), map: Seq::empty(), stack: Seq::empty() };
    let end = unwind_to(smd_run(chars, syms, verbatim, items, literal, start), 0, total);
    (end.out, end.map.push(total))
}

/// The stack entry seen as an `SmdEntry` whose opening starts at character `start`.
pub open spec fn entry_view(e: StackEntry, start: int) -> SmdEntry {
    SmdEntry {
        tag: e.tag_name@,
        open: e.html_open@,
        close: e.html_close@,
        start,
        raw: e.raw_symbol@,
        orig: e.original_byte,
    }
}

pub open spec fn stack_view(stack: Seq<StackEntry>, starts: Seq<int>) -> Seq<SmdEntry> {
    Seq::new(stack.len(), |k: int| entry_view(stack[k], starts[k]))
}

/// Each stack entry's opening stands at its place in `out`, in stack order.
pub open spec fn entries_ok(out: Seq<char>, stack: Seq<StackEntry>, starts: Seq<int>) -> bool {
    &&& starts.len() == stack.len()
    &&& forall|k: int| 0 <= k < stack.len() ==> {
        &&& 0 <= #[trigger] starts[k]
        &&& starts[k] + stack[k].html_open@.len() <= out.len()
        &&& out.subrange(starts[k], starts[k] + stack[k].html_open@.len()) == stack[k].html_open@
        &&& stack[k].output_start == utf8_len(out.take(starts[k]))
    }
    &&& forall|j: int, k: int| 0 <= j < k < stack.len() ==>
        #[trigger] starts[j] + stack[j].html_open@.len() <= #[trigger] starts[k]
}

proof fn lemma_entries_ok_prefix(out1: Seq<char>, out2: Seq<char>, stack: Seq<StackEntry>, starts: Seq<int>, m: int)
    requires
        entries_ok(out1, stack, starts),
        0 <= m <= out1.len(),
        m <= out2.len(),
        out2.take(m) == out1.take(m),
        forall|k: int| 0 <= k < stack.len() ==> #[trigger] starts[k] + stack[k].html_open@.len() <= m,
    ensures
        entries_ok(out2, stack, starts),
{
    assert forall|k: int| 0 <= k < stack.len() implies {
        &&& 0 <= #[trigger] starts[k]
        &&& starts[k] + stack[k].html_open@.len() <= out2.len()
        &&& out2.subrange(starts[k], starts[k] + stack[k].html_open@.len()) == stack[k].html_open@
        &&& stack[k].output_start == utf8_len(out2.take(starts[k]))
    } by {
        let e = starts[k] + stack[k].html_open@.len();
        assert(out2.subrange(starts[k], e) =~= out2.take(m).subrange(starts[k], e));
        assert(out1.subrange(starts[k], e) =~= out1.take(m).subrange(starts[k], e));
        assert(out2.take(starts[k]) =~= out2.take(m).take(starts[k]));
        assert(out1.take(starts[k]) =~= out1.take(m).take(starts[k]));
    }
}


/// The preprocessed text and map are consistent: one map entry per byte written.
pub open spec fn writer_ok(out: PreprocessorOutput) -> bool {
    out.map@.len() == utf8_len(out.output@)
}

/// Every source byte in `m` is at most `t`.
pub open spec fn map_within(m: Seq<usize>, t: int) -> bool {
    forall|k: int| 0 <= k < m.len() ==> m[k] <= t
}

/// Every open formatter was written at a source byte of at most `t`.
pub open spec fn origs_within(stack: Seq<StackEntry>, t: int) -> bool {
    forall|k: int| 0 <= k < stack.len() ==> stack[k].original_byte <= t
}

proof fn lemma_map_within_concat(a: Seq<usize>, b: Seq<usize>, t: int)
    requires
        map_within(a, t),
        map_within(b, t),
    ensures
        map_within(a + b, t),
{
    assert forall|k: int| 0 <= k < (a + b).len() implies (a + b)[k] <= t by {
        if k < a.len() {
            assert((a + b)[k] == a[k]);
        } else {
            assert((a + b)[k] == b[k - a.len()]);
        }
    }
}

proof fn lemma_map_within_splice(m: Seq<usize>, i: int, j: int, b: usize, n: nat, t: int)
    requires
        map_within(m, t),
        0 <= i <= j <= m.len(),
        b <= t,
    ensures
        map_within(m.take(i) + repeat_byte(b, n) + m.skip(j), t),
{
    assert(map_within(m.take(i), t));
    assert(map_within(m.skip(j), t)) by {
        assert forall|k: int| 0 <= k < m.skip(j).len() implies m.skip(j)[k] <= t by {
            assert(m.skip(j)[k] == m[j + k]);
        }
    }
    assert(map_within(repeat_byte(b, n), t));
    lemma_map_within_concat(m.take(i), repeat_byte(b, n), t);
    lemma_map_within_concat(m.take(i) + repeat_byte(b, n), m.skip(j), t);
}

/// `b` is where a character of `chars` starts, or the end of `chars`.
pub open spec fn is_char_boundary(chars: Seq<char>, b: int) -> bool {
    exists|k: int| 0 <= k <= chars.len() && #[trigger] utf8_len(chars.take(k)) == b
}

/// The map never goes back in the source.
pub open spec fn map_sorted(m: Seq<usize>) -> bool {
    forall|j: int, k: int| 0 <= j <= k < m.len() ==> m[j] <= m[k]
}

/// Every source byte in `m` is a character boundary of `chars`.
pub open spec fn map_on_boundaries(m: Seq<usize>, chars: Seq<char>) -> bool {
    forall|k: int| 0 <= k < m.len() ==> is_char_boundary(chars, #[trigger] m[k] as int)
}

/// Each open formatter's source byte sits at its place in the map: the
/// bytes written before its opening map before it, the later ones after.
pub open spec fn stack_placed(m: Seq<usize>, stack: Seq<StackEntry>) -> bool {
    forall|k: int| 0 <= k < stack.len() ==> {
        &&& #[trigger] stack[k].output_start <= m.len()
        &&& forall|j: int| 0 <= j < stack[k].output_start ==> m[j] <= stack[k].original_byte
        &&& forall|j: int| stack[k].output_start <= j < m.len() ==> m[j] >= stack[k].original_byte
    }
}

/// The map written so far is ordered: sorted, on character boundaries, at
/// most `t`, with the open formatters in order and in place.
pub open spec fn map_ordered(m: Seq<usize>, stack: Seq<StackEntry>, chars: Seq<char>, t: int) -> bool {
    &&& map_within(m, t)
    &&& origs_within(stack, t)
    &&& map_sorted(m)
    &&& forall|j: int, k: int| 0 <= j <= k < stack.len() ==> #[trigger] stack[j].original_byte <= #[trigger] stack[k].original_byte
    &&& stack_placed(m, stack)
    &&& map_on_boundaries(m, chars)
    &&& forall|k: int| 0 <= k < stack.len() ==> is_char_boundary(chars, #[trigger] stack[k].original_byte as int)
}

/// A run of bytes to append after a map bounded by `t`: sorted, between `t`
/// and `t2`, on character boundaries.
pub open spec fn tail_fits(a: Seq<usize>, chars: Seq<char>, t: int, t2: int) -> bool {
    &&& map_sorted(a)
    &&& forall|k: int| 0 <= k < a.len() ==> t <= #[trigger] a[k] <= t2
    &&& map_on_boundaries(a, chars)
}

proof fn lemma_repeat_fits(b: usize, n: nat, chars: Seq<char>, t: int, t2: int)
    requires
        t <= b <= t2,
        is_char_boundary(chars, b as int),
    ensures
        tail_fits(repeat_byte(b, n), chars, t, t2),
{
    let r = repeat_byte(b, n);
    assert forall|k: int| 0 <= k < r.len() implies is_char_boundary(chars, #[trigger] r[k] as int) by {
        assert(r[k] == b);
    }
}

proof fn lemma_append_ordered(m: Seq<usize>, stack: Seq<StackEntry>, chars: Seq<char>, t: int, a: Seq<usize>, t2: int)
    requires
        map_ordered(m, stack, chars, t),
        t <= t2,
        tail_fits(a, chars, t, t2),
    ensures
        map_ordered(m + a, stack, chars, t2),
{
    let ma = m + a;
    assert forall|k: int| 0 <= k < ma.len() implies ma[k] <= t2 by {
        if k >= m.len() { assert(ma[k] == a[k - m.len()]); }
    }
    assert forall|j: int, k: int| 0 <= j <= k < ma.len() implies ma[j] <= ma[k] by {
        if k < m.len() {
        } else if j < m.len() {
            assert(ma[k] == a[k - m.len()]);
        } else {
            assert(ma[j] == a[j - m.len()] && ma[k] == a[k - m.len()]);
        }
    }
    assert forall|k: int| 0 <= k < ma.len() implies is_char_boundary(chars, #[trigger] ma[k] as int) by {
        if k < m.len() { assert(ma[k] == m[k]); } else { assert(ma[k] == a[k - m.len()]); }
    }
    assert forall|k: int| 0 <= k < stack.len() implies {
        &&& #[trigger] stack[k].output_start <= ma.len()
        &&& forall|j: int| 0 <= j < stack[k].output_start ==> ma[j] <= stack[k].original_byte
        &&& forall|j: int| stack[k].output_start <= j < ma.len() ==> ma[j] >= stack[k].original_byte
    } by {
        assert forall|j: int| stack[k].output_start <= j < ma.len() implies ma[j] >= stack[k].original_byte by {
            if j >= m.len() { assert(ma[j] == a[j - m.len()]); }
        }
    }
}

proof fn lemma_ordered_weaken(m: Seq<usize>, stack: Seq<StackEntry>, chars: Seq<char>, t: int, t2: int)
    requires
        map_ordered(m, stack, chars, t),
        t <= t2,
    ensures
        map_ordered(m, stack, chars, t2),
{
}

proof fn lemma_push_ordered(m: Seq<usize>, stack: Seq<StackEntry>, chars: Seq<char>, t: int, e: StackEntry, n: nat)
    requires
        map_ordered(m, stack, chars, t),
        e.output_start == m.len(),
        e.original_byte == t,
        is_char_boundary(chars, t),
    ensures
        map_ordered(m + repeat_byte(e.original_byte, n), stack.push(e), chars, t),
{
    let r = repeat_byte(e.original_byte, n);
    lemma_repeat_fits(e.original_byte, n, chars, t, t);
    lemma_append_ordered(m, stack, chars, t, r, t);
    let m1 = m + r;
    let s1 = stack.push(e);
    assert forall|k: int| 0 <= k < s1.len() implies {
        &&& #[trigger] s1[k].output_start <= m1.len()
        &&& forall|j: int| 0 <= j < s1[k].output_start ==> m1[j] <= s1[k].original_byte
        &&& forall|j: int| s1[k].output_start <= j < m1.len() ==> m1[j] >= s1[k].original_byte
    } by {
        if k == stack.len() {
            assert forall|j: int| s1[k].output_start <= j < m1.len() implies m1[j] >= s1[k].original_byte by {
                assert(m1[j] == r[j - m.len()]);
            }
        } else {
            assert(s1[k] == stack[k]);
        }
    }
    assert forall|j: int, k: int| 0 <= j <= k < s1.len() implies #[trigger] s1[j].original_byte <= #[trigger] s1[k].original_byte by {
        if k < stack.len() {
            assert(s1[j] == stack[j] && s1[k] == stack[k]);
        } else if j < stack.len() {
            assert(s1[j] == stack[j]);
        }
    }
    assert forall|k: int| 0 <= k < s1.len() implies is_char_boundary(chars, #[trigger] s1[k].original_byte as int) by {
        if k < stack.len() { assert(s1[k] == stack[k]); }
    }
}

proof fn lemma_drop_last_ordered(m: Seq<usize>, stack: Seq<StackEntry>, chars: Seq<char>, t: int)
    requires
        map_ordered(m, stack, chars, t),
        stack.len() > 0,
    ensures
        map_ordered(m, stack.drop_last(), chars, t),
{
    let d = stack.drop_last();
    assert forall|k: int| 0 <= k < d.len() implies #[trigger] d[k] == stack[k] by {}
}

proof fn lemma_unwind_ordered(m0: Seq<usize>, stack0: Seq<StackEntry>, chars: Seq<char>, t: int, b: usize, len: int, n_err: nat, n_span: nat)
    requires
        b == t,
        map_ordered(m0, stack0, chars, t),
        stack0.len() > 0,
        0 <= len,
        stack0.last().output_start + len <= m0.len(),
        forall|j: int| 0 <= j < stack0.len() - 1 ==> #[trigger] stack0[j].output_start <= stack0.last().output_start,
        is_char_boundary(chars, t),
    ensures
        ({
            let e = stack0.last();
            let s = e.output_start as int;
            let m1 = m0.take(s) + repeat_byte(e.original_byte, n_err) + m0.skip(s + len);
            map_ordered(m1 + repeat_byte(b, n_span), stack0.drop_last(), chars, t)
        }),
{
    let e = stack0.last();
    let last = stack0.len() - 1;
    assert(stack0[last] == e);
    let s = e.output_start as int;
    let o = e.original_byte;
    let rp = repeat_byte(o, n_err);
    let m1 = m0.take(s) + rp + m0.skip(s + len);
    let st = stack0.drop_last();
    let d = n_err - len;
    lemma_map_within_splice(m0, s, s + len, o, n_err, t);
    // Each byte of `m1` is a byte of `m0` or `o`.
    assert forall|j: int| 0 <= j < m1.len() implies
        (j < s ==> #[trigger] m1[j] == m0[j])
        && (s <= j < s + n_err ==> m1[j] == o)
        && (s + n_err <= j ==> m1[j] == m0[j - n_err + len]) by {
        if j < s {
            assert(m1[j] == m0.take(s)[j]);
        } else if j < s + n_err {
            assert(m1[j] == rp[j - s]);
        } else {
            assert(m1[j] == m0.skip(s + len)[j - s - n_err]);
        }
    }
    assert forall|j: int, k: int| 0 <= j <= k < m1.len() implies m1[j] <= m1[k] by {
        assert(m1[j] == m1[j] && m1[k] == m1[k]);
        if j < s {
            assert(m0[j] <= o);
        }
        if s + n_err <= k {
            assert(m0[k - n_err + len] >= o);
        }
    }
    assert forall|k: int| 0 <= k < m1.len() implies is_char_boundary(chars, #[trigger] m1[k] as int) by {
        if k < s || s + n_err <= k {
        } else {
            assert(stack0[last].original_byte == o);
        }
    }
    assert forall|k: int| 0 <= k < st.len() implies {
        &&& #[trigger] st[k].output_start <= m1.len()
        &&& forall|j: int| 0 <= j < st[k].output_start ==> m1[j] <= st[k].original_byte
        &&& forall|j: int| st[k].output_start <= j < m1.len() ==> m1[j] >= st[k].original_byte
    } by {
        assert(st[k] == stack0[k]);
        let sk = stack0[k].output_start as int;
        let ok = stack0[k].original_byte;
        assert(sk <= s);
        assert(ok <= o);
        assert forall|j: int| 0 <= j < sk implies m1[j] <= ok by {
            assert(m1[j] == m0[j]);
        }
        assert forall|j: int| sk <= j < m1.len() implies m1[j] >= ok by {
            if j < s {
                assert(m1[j] == m0[j]);
            } else if j >= s + n_err {
                assert(m1[j] == m0[j - n_err + len]);
            }
        }
    }
    assert(map_ordered(m1, st, chars, t)) by {
        assert forall|j: int, k: int| 0 <= j <= k < st.len() implies #[trigger] st[j].original_byte <= #[trigger] st[k].original_byte by {
            assert(st[j] == stack0[j] && st[k] == stack0[k]);
        }
        assert forall|k: int| 0 <= k < st.len() implies is_char_boundary(chars, #[trigger] st[k].original_byte as int) by {
            assert(st[k] == stack0[k]);
        }
        assert forall|k: int| 0 <= k < st.len() implies #[trigger] st[k].original_byte <= t by {
            assert(st[k] == stack0[k]);
        }
    }
    lemma_repeat_fits(b, n_span, chars, t, t);
    lemma_append_ordered(m1, st, chars, t, repeat_byte(b, n_span), t);
}

proof fn lemma_take_len_mono(chars: Seq<char>, x: int, y: int)
    requires
        0 <= x <= y <= chars.len(),
    ensures
        utf8_len(chars.take(x)) <= utf8_len(chars.take(y)),
{
    assert(chars.take(y).take(x) =~= chars.take(x));
    lemma_utf8_len_take_le(chars.take(y), x);
}

proof fn lemma_segment_fits(chars: Seq<char>, i: int, j: int)
    requires
        0 <= i <= j <= chars.len(),
        utf8_len(chars) <= usize::MAX,
    ensures
        tail_fits(segment_map(chars.subrange(i, j), byte_positions(chars), i), chars,
            utf8_len(chars.take(i)) as int, utf8_len(chars.take(j)) as int),
    decreases j - i,
{
    let seg = segment_map(chars.subrange(i, j), byte_positions(chars), i);
    if j > i {
        lemma_segment_fits(chars, i, j - 1);
        let s = chars.subrange(i, j);
        assert(s.drop_last() =~= chars.subrange(i, j - 1));
        let prev = segment_map(chars.subrange(i, j - 1), byte_positions(chars), i);
        let v = byte_positions(chars)[j - 1];
        lemma_take_len_mono(chars, j - 1, j);
        lemma_take_len_mono(chars, i, j - 1);
        lemma_utf8_len_take_le(chars, j);
        assert(v == utf8_len(chars.take(j - 1)) as usize);
        assert(is_char_boundary(chars, v as int)) by {
            assert(utf8_len(chars.take(j - 1)) == v);
        }
        let r = repeat_byte(v, char_width(s.last()));
        assert(seg == prev + r);
        assert forall|k: int| 0 <= k < seg.len() implies
            utf8_len(chars.take(i)) as int <= #[trigger] seg[k] <= utf8_len(chars.take(j)) as int by {
            if k >= prev.len() { assert(seg[k] == r[k - prev.len()]); } else { assert(seg[k] == prev[k]); }
        }
        assert forall|a: int, b: int| 0 <= a <= b < seg.len() implies seg[a] <= seg[b] by {
            if b >= prev.len() {
                assert(seg[b] == r[b - prev.len()]);
                if a >= prev.len() { assert(seg[a] == r[a - prev.len()]); } else { assert(seg[a] == prev[a]); }
            } else {
                assert(seg[a] == prev[a] && seg[b] == prev[b]);
            }
        }
        assert forall|k: int| 0 <= k < seg.len() implies is_char_boundary(chars, #[trigger] seg[k] as int) by {
            if k >= prev.len() { assert(seg[k] == r[k - prev.len()]); } else { assert(seg[k] == prev[k]); }
        }
    } else {
        assert(chars.subrange(i, j) =~= Seq::<char>::empty());
    }
}

fn stack_has(stack: &Vec<StackEntry>, tag: &str, Ghost(starts): Ghost<Seq<int>>) -> (r: bool)
    requires
        starts.len() == stack@.len(),
    ensures
        r == has_tag(stack_view(stack@, starts), tag@),
{
    let mut k: usize = 0;
    while k < stack.len()
        invariant
            k <= stack@.len(),
            starts.len() == stack@.len(),
            forall|j: int| 0 <= j < k ==> stack@[j].tag_name@ != tag@,
        decreases stack@.len() - k,
    {
        if str_eq(stack[k].tag_name.as_str(), tag) {
            assert(stack_view(stack@, starts)[k as int].tag == tag@);
            return true;
        }
        k += 1;
    }
    assert forall|j: int| 0 <= j < stack@.len() implies (#[trigger] stack_view(stack@, starts)[j]).tag != tag@ by {}
    false
}

fn last_index(stack: &Vec<StackEntry>, tag: &String, Ghost(starts): Ghost<Seq<int>>) -> (r: Option<usize>)
    requires
        starts.len() == stack@.len(),
    ensures
        match r {
            Some(k) => k < stack@.len() && k as int == last_tag_index(stack_view(stack@, starts), tag@),
            None => last_tag_index(stack_view(stack@, starts), tag@) == -1,
        },
{
    let ghost v = stack_view(stack@, starts);
    let mut k: usize = stack.len();
    assert(v.take(k as int) =~= v);
    while k > 0
        invariant
            k <= stack@.len(),
            v == stack_view(stack@, starts),
            starts.len() == stack@.len(),
            last_tag_index(v, tag@) == last_tag_index(v.take(k as int), tag@),
        decreases k,
    {
        assert(v.take(k as int).drop_last() =~= v.take(k - 1));
        if stack[k - 1].tag_name == *tag {
            return Some(k - 1);
        }
        k -= 1;
    }
    None
}

/// Turns the entries above the first `keep` ones into error spans, top first,
/// each closed at source byte `b`.
fn unwind(out: &mut PreprocessorOutput, stack: &mut Vec<StackEntry>, Ghost(starts): Ghost<Seq<int>>, keep: usize, b: usize, Ghost(chars): Ghost<Seq<char>>) -> (r: Ghost<Seq<int>>)
    requires
        writer_ok(*old(out)),
        entries_ok(old(out).output@, old(stack)@, starts),
        keep <= old(stack)@.len(),
        map_ordered(old(out).map@, old(stack)@, chars, b as int),
        is_char_boundary(chars, b as int),
    ensures
        map_ordered(final(out).map@, final(stack)@, chars, b as int),
        writer_ok(*final(out)),
        entries_ok(final(out).output@, final(stack)@, r@),
        final(stack)@ == old(stack)@.take(keep as int),
        r@ == starts.take(keep as int),
        ({
            let u = unwind_to(SmdState { i: 0, out: old(out).output@, map: old(out).map@, stack: stack_view(old(stack)@, starts) }, keep as int, b);
            &&& final(out).output@ == u.out
            &&& final(out).map@ == u.map
            &&& stack_view(final(stack)@, r@) == u.stack
        }),
{
    let ghost st0 = SmdState { i: 0, out: out.output@, map: out.map@, stack: stack_view(stack@, starts) };
    let ghost stack0 = stack@;
    let ghost mut st = starts;
    while stack.len() > keep
        invariant
            writer_ok(*out),
            entries_ok(out.output@, stack@, st),
            keep <= stack@.len() <= stack0.len(),
            stack@ == stack0.take(stack@.len() as int),
            st == starts.take(stack@.len() as int),
            starts.len() == stack0.len(),
            unwind_to(SmdState { i: 0, out: out.output@, map: out.map@, stack: stack_view(stack@, st) }, keep as int, b)
                == unwind_to(st0, keep as int, b),
            map_ordered(out.map@, stack@, chars, b as int),
            is_char_boundary(chars, b as int),
        decreases stack@.len(),
    {
        let ghost cur = SmdState { i: 0, out: out.output@, map: out.map@, stack: stack_view(stack@, st) };
        let ghost o = out.output@;
        let ghost k = stack@.len() - 1;
        let ghost s0 = st[k];
        let maplen = out.map.len();
        let ghost prev_stack = stack@;
        let ghost m0 = out.map@;
        let entry = stack.pop().unwrap();
        proof {
            assert(stack0.take(stack@.len() as int) =~= stack0.take(k + 1).drop_last());
            assert(entry == stack0[k]);
        }
        let open_len = byte_len(entry.html_open.as_str());
        let ghost e_open = entry.html_open@;
        proof {
            assert(o.take(s0 + e_open.len()) =~= o.take(s0) + o.subrange(s0, s0 + e_open.len()));
            lemma_utf8_len_concat(o.take(s0), e_open);
            lemma_utf8_len_take_le(o, s0 + e_open.len());
            assert(o =~= o.take(s0 + e_open.len()) + o.skip(s0 + e_open.len()));
            lemma_utf8_len_concat(o.take(s0 + e_open.len()), o.skip(s0 + e_open.len()));
        }
        let mut error_open = "<span class=\"error\">".to_owned();
        push_str(&mut error_open, entry.raw_symbol.as_str());
        out.replace_range_with_mapped(entry.output_start..entry.output_start + open_len, error_open.as_str(), entry.original_byte);
        let ghost o2 = out.output@;
        proof {
            assert(o2 == o.take(s0) + error_open@ + o.skip(s0 + e_open.len()));
            assert(o2.take(s0) =~= o.take(s0));
            lemma_utf8_len_concat(o.take(s0), error_open@);
            lemma_utf8_len_concat(o.take(s0) + error_open@, o.skip(s0 + e_open.len()));
            assert forall|j: int| 0 <= j < stack@.len() implies #[trigger] st[j] + stack@[j].html_open@.len() <= s0 by {
                assert(stack@[j] == stack0[j]);
            }
            assert(entries_ok(o, stack@, st.drop_last())) by {
                assert forall|j: int| 0 <= j < stack@.len() implies stack@[j] == prev_stack[j] by {}
            }
            lemma_entries_ok_prefix(o, o2, stack@, st.drop_last(), s0);
        }
        let ghost m2 = out.map@;
        out.push_str("</span>", b);
        proof {
            assert forall|j: int| 0 <= j < prev_stack.len() - 1 implies #[trigger] prev_stack[j].output_start <= prev_stack.last().output_start by {
                let x = st[j];
                let y = st[k];
                assert(x + prev_stack[j].html_open@.len() <= y);
                assert(o.take(y).take(x) =~= o.take(x));
                lemma_utf8_len_take_le(o.take(y), x);
                assert(prev_stack[k] == prev_stack.last());
            }
            assert(prev_stack.last() == entry);
            lemma_unwind_ordered(m0, prev_stack, chars, b as int, b, open_len as int, utf8_len(error_open@), utf8_len("</span>"@));
            assert(stack@ =~= prev_stack.drop_last());
            assert(out.output@.take(o2.len() as int) =~= o2);
            assert(o2.take(o2.len() as int) =~= o2);
            lemma_entries_ok_prefix(o2, out.output@, stack@, st.drop_last(), o2.len() as int);
            lemma_utf8_len_concat(o2, "</span>"@);
            assert(stack_view(stack@, st.drop_last()) =~= cur.stack.drop_last());
            st = st.drop_last();
        }
    }
    proof {
        assert(stack0.take(keep as int) =~= stack@);
    }
    Ghost(st)
}

/// Closes the open entry `idx`: the entries above it become error spans and
/// its closing HTML is written, all at source byte `b`.
fn close_found(out: &mut PreprocessorOutput, stack: &mut Vec<StackEntry>, Ghost(starts): Ghost<Seq<int>>, idx: usize, b: usize, Ghost(chars): Ghost<Seq<char>>) -> (r: Ghost<Seq<int>>)
    requires
        writer_ok(*old(out)),
        entries_ok(old(out).output@, old(stack)@, starts),
        idx < old(stack)@.len(),
        map_ordered(old(out).map@, old(stack)@, chars, b as int),
        is_char_boundary(chars, b as int),
    ensures
        map_ordered(final(out).map@, final(stack)@, chars, b as int),
        writer_ok(*final(out)),
        entries_ok(final(out).output@, final(stack)@, r@),
        ({
            let u = unwind_to(SmdState { i: 0, out: old(out).output@, map: old(out).map@, stack: stack_view(old(stack)@, starts) }, idx + 1, b);
            let c = emit(SmdState { i: u.i, out: u.out, map: u.map, stack: u.stack.drop_last() }, u.stack.last().close, b);
            &&& final(out).output@ == c.out
            &&& final(out).map@ == c.map
            &&& stack_view(final(stack)@, r@) == c.stack
        }),
{
    let _n = stack.len();
    let Ghost(st) = unwind(out, stack, Ghost(starts), idx + 1, b, Ghost(chars));
    let ghost o = out.output@;
    let ghost m1 = out.map@;
    let ghost s1 = stack@;
    let entry = stack.pop().unwrap();
    out.push_str(entry.html_close.as_str(), b);
    proof {
        lemma_drop_last_ordered(m1, s1, chars, b as int);
        assert(stack@ =~= s1.drop_last());
        lemma_repeat_fits(b, utf8_len(entry.html_close@), chars, b as int, b as int);
        lemma_append_ordered(m1, stack@, chars, b as int, repeat_byte(b, utf8_len(entry.html_close@)), b as int);
        assert(out.output@.take(o.len() as int) =~= o);
        assert(o.take(o.len() as int) =~= o);
        assert(entries_ok(o, stack@, st.drop_last())) by {
            assert forall|j: int| 0 <= j < stack@.len() implies stack@[j] == old(stack)@[j] by {}
        }
        lemma_entries_ok_prefix(o, out.output@, stack@, st.drop_last(), o.len() as int);
        lemma_utf8_len_concat(o, entry.html_close@);
        assert(stack_view(stack@, st.drop_last()) =~= stack_view(old(stack)@, starts).take(idx + 1).drop_last());
    }
    Ghost(st.drop_last())
}

/// Opens a formatter: writes its opening HTML at source byte `b` and pushes its entry.
fn open_new(
    out: &mut PreprocessorOutput,
    stack: &mut Vec<StackEntry>,
    Ghost(starts): Ghost<Seq<int>>,
    tag_name: String,
    html_open: String,
    html_close: String,
    raw_symbol: String,
    b: usize,
    Ghost(chars): Ghost<Seq<char>>,
) -> (r: Ghost<Seq<int>>)
    requires
        writer_ok(*old(out)),
        entries_ok(old(out).output@, old(stack)@, starts),
        map_ordered(old(out).map@, old(stack)@, chars, b as int),
        is_char_boundary(chars, b as int),
    ensures
        map_ordered(final(out).map@, final(stack)@, chars, b as int),
        writer_ok(*final(out)),
        entries_ok(final(out).output@, final(stack)@, r@),
        ({
            let entry = SmdEntry {
                tag: tag_name@,
                open: html_open@,
                close: html_close@,
                start: old(out).output@.len() as int,
                raw: raw_symbol@,
                orig: b,
            };
            let c = emit(SmdState { i: 0, out: old(out).output@, map: old(out).map@, stack: stack_view(old(stack)@, starts).push(entry) }, html_open@, b);
            &&& final(out).output@ == c.out
            &&& final(out).map@ == c.map
            &&& stack_view(final(stack)@, r@) == c.stack
        }),
{
    let ghost o = out.output@;
    let output_start = byte_len(out.output.as_str());
    out.push_str(html_open.as_str(), b);
    let ghost hopen = html_open@;
    stack.push(StackEntry { tag_name, html_open, html_close, output_start, raw_symbol, original_byte: b });
    let ghost ns = starts.push(o.len() as int);
    proof {
        assert(output_start as int == old(out).map@.len());
        lemma_push_ordered(old(out).map@, old(stack)@, chars, b as int, stack@.last(), utf8_len(html_open@));
        assert(stack@ =~= old(stack)@.push(stack@.last()));
        assert(out.output@.take(o.len() as int) =~= o);
        assert(o.take(o.len() as int) =~= o);
        assert(entries_ok(o, old(stack)@, starts));
        lemma_entries_ok_prefix(o, out.output@, old(stack)@, starts, o.len() as int);
        lemma_utf8_len_concat(o, hopen);
        assert(out.output@.subrange(o.len() as int, (o.len() + hopen.len()) as int) =~= hopen);
        assert forall|k: int| 0 <= k < stack@.len() implies {
            &&& 0 <= #[trigger] ns[k]
            &&& ns[k] + stack@[k].html_open@.len() <= out.output@.len()
            &&& out.output@.subrange(ns[k], ns[k] + stack@[k].html_open@.len()) == stack@[k].html_open@
            &&& stack@[k].output_start == utf8_len(out.output@.take(ns[k]))
        } by {
            if k < stack@.len() - 1 {
                assert(stack@[k] == old(stack)@[k]);
                assert(ns[k] == starts[k]);
            }
        }
        assert forall|j: int, k: int| 0 <= j < k < stack@.len() implies
            #[trigger] ns[j] + stack@[j].html_open@.len() <= #[trigger] ns[k] by {
            assert(stack@[j] == old(stack)@[j]);
            if k < stack@.len() - 1 {
                assert(stack@[k] == old(stack)@[k]);
            }
        }
        assert(stack_view(stack@, ns) =~= stack_view(old(stack)@, starts).push(SmdEntry {
            tag: stack@.last().tag_name@,
            open: hopen,
            close: stack@.last().html_close@,
            start: o.len() as int,
            raw: stack@.last().raw_symbol@,
            orig: b,
        }));
    }
    Ghost(ns)
}


proof fn lemma_match_tag_progress(chars: Seq<char>, i: int, s: SmdSymbols, q: bool, c: bool)
    requires
        0 <= i < chars.len(),
        match_tag(chars, i, s, q, c) is Some,
    ensures
        match_tag(chars, i, s, q, c)->0.skip > 0,
{
    let start_c = i + s.font_color.len();
    let start_s = i + s.font_size.len();
    let start_q = i + s.named_quote.len();
    let start_l = i + s.collapse.len();
    lemma_scan_to_ge(chars, start_c, ' ', ']');
    lemma_scan_to_ge(chars, start_s, ' ', ']');
    lemma_scan_to_ge(chars, start_q, ' ', '\n');
    lemma_scan_to_ge(chars, start_l, ' ', '\n');
}

proof fn lemma_scan_to_ge(chars: Seq<char>, j: int, a: char, b: char)
    ensures
        scan_to(chars, j, a, b) >= j,
    decreases chars.len() - j,
{
    if 0 <= j < chars.len() && chars[j] != a && chars[j] != b {
        lemma_scan_to_ge(chars, j + 1, a, b);
    }
}

proof fn lemma_skip_to_byte_ge(chars: Seq<char>, j: int, end_b: int)
    ensures
        skip_to_byte(chars, j, end_b) >= j,
    decreases chars.len() - j,
{
    if 0 <= j < chars.len() && utf8_len(chars.take(j)) < end_b {
        lemma_skip_to_byte_ge(chars, j + 1, end_b);
    }
}

proof fn lemma_emoji_name_end_ge(chars: Seq<char>, j: int, sym: Seq<char>)
    ensures
        emoji_name_end(chars, j, sym) >= j,
    decreases chars.len() - j,
{
    if 0 <= j < chars.len() && !symbol_at(chars, j, sym) && chars[j] != '\n' && chars[j] != ' ' {
        lemma_emoji_name_end_ge(chars, j + 1, sym);
    }
}

fn space_run_end_at(chars: &Vec<char>, i: usize) -> (r: usize)
    requires
        i <= chars@.len(),
    ensures
        r == space_run_end(chars@, i as int),
        i <= r <= chars@.len(),
{
    let mut j = i;
    while j < chars.len() && chars[j] == ' '
        invariant
            i <= j <= chars@.len(),
            space_run_end(chars@, i as int) == space_run_end(chars@, j as int),
        decreases chars@.len() - j,
    {
        j += 1;
    }
    j
}

fn opens_block_char(c: char) -> (r: bool)
    ensures
        r == opens_block(c),
{
    c == '#' || c == '>' || c == '|' || c == '-' || c == '*' || c == '+' || c == '_' || c == '='
        || c == '~' || c == '`' || c == '<' || c == '[' || ('0' <= c && c <= '9')
}

/// Whether the space at `i` is written as a no-break space.
fn keeps_space(chars: &Vec<char>, i: usize, items: &[(usize, usize)], c2b: &Vec<usize>) -> (r: bool)
    requires
        i < chars@.len(),
        c2b@ == byte_positions(chars@),
        utf8_len(chars@) <= usize::MAX,
    ensures
        r == kept_space(chars@, i as int, items@),
{
    if chars[i] != ' ' {
        return false;
    }
    let j = space_run_end_at(chars, i);
    if j >= chars.len() || chars[j] == '\n' || chars[j] == '\r' || chars[j] == '\t' {
        return false;
    }
    let ls = line_start_at(chars, i);
    let mut k = ls;
    while k < i && chars[k] == ' '
        invariant
            ls <= k <= i < chars@.len(),
            forall|m: int| ls <= m < k ==> chars@[m] == ' ',
        decreases i - k,
    {
        k += 1;
    }
    if k == i {
        if j - ls > 3 || opens_block_char(chars[j]) {
            return false;
        }
        let b = c2b[ls];
        proof {
            lemma_utf8_len_take_le(chars@, ls as int);
            assert(forall|m: int| ls <= m < i ==> chars@[m] == ' ');
        }
        let r = find_verbatim(items, b).is_none();
        assert(r == kept_space(chars@, i as int, items@));
        r
    } else {
        proof {
            assert(!(forall|m: int| ls <= m < i ==> chars@[m] == ' ')) by {
                assert(chars@[k as int] != ' ');
            }
        }
        chars[i - 1] == ' '
    }
}

/// Preprocesses `text` with the symbols of `config`, leaving the byte ranges
/// `verbatim` as they are, the indentation of the list items `items` as it
/// is, and the plain text of the ranges `literal` unescaped. Returns the text for the markdown parser and, for
/// each of its bytes and one past its end, the source byte it came from.
#[verifier::rlimit(60)]
pub fn preprocess_with_verbatim(text: &str, config: &Config, verbatim: &[(usize, usize)], items: &[(usize, usize)], literal: &[(usize, usize)]) -> (r: (String, Vec<usize>))
    ensures
        (r.0@, r.1@) == smd_preprocess(text@, smd_symbols(*config), verbatim@, items@, literal@),
        r.1@.len() == utf8_len(r.0@) + 1,
        r.1@.last() == utf8_len(text@),
        map_within(r.1@, utf8_len(text@) as int),
        map_sorted(r.1@),
        map_on_boundaries(r.1@, text@),
{
    let chars = to_chars(text);
    let total = byte_len(text);
    let char_to_byte = char_to_byte_table(&chars);
    let syms = ActiveSymbols::of(config);
    let ghost sv = smd_symbols(*config);
    let mut out = PreprocessorOutput::new();
    let mut stack: Vec<StackEntry> = Vec::new();
    let ghost mut starts: Seq<int> = Seq::empty();
    let ghost init = SmdState { i: 0, out: Seq::empty(), map: Seq::empty(), stack: Seq::empty() };
    proof {
        assert(stack_view(stack@, starts) =~= Seq::<SmdEntry>::empty());
    }
    let mut i: usize = 0;
    while i < chars.len()
        invariant
            i <= chars@.len(),
            chars@ == text@,
            total == utf8_len(chars@),
            char_to_byte@ == byte_positions(chars@),
            syms.view() == sv,
            sv == smd_symbols(*config),
            writer_ok(out),
            entries_ok(out.output@, stack@, starts),
            smd_run(chars@, sv, verbatim@, items@, literal@, SmdState { i: i as int, out: out.output@, map: out.map@, stack: stack_view(stack@, starts) })
                == smd_run(chars@, sv, verbatim@, items@, literal@, init),
            map_ordered(out.map@, stack@, chars@, utf8_len(chars@.take(i as int)) as int),
        decreases chars@.len() - i,
    {
        let ghost cur = SmdState { i: i as int, out: out.output@, map: out.map@, stack: stack_view(stack@, starts) };
        let ghost o = out.output@;
        proof {
            lemma_utf8_len_take_le(chars@, i as int);
        }
        let current_byte = char_to_byte[i];
        assert(current_byte == utf8_len(chars@.take(i as int)) as usize);
        let ghost m0 = out.map@;
        let ghost cb = utf8_len(chars@.take(i as int)) as int;
        proof {
            assert(is_char_boundary(chars@, current_byte as int)) by {
                assert(utf8_len(chars@.take(i as int)) == current_byte);
            }
        }
        if let Some(end_byte) = find_verbatim(verbatim, current_byte) {
            let end_char = skip_to_byte_exec(&chars, &char_to_byte, i, end_byte);
            proof {
                lemma_verbatim_end_after(verbatim@, current_byte as int);
                assert(skip_to_byte(chars@, i as int, end_byte as int) == skip_to_byte(chars@, i + 1, end_byte as int));
                lemma_skip_to_byte_ge(chars@, i + 1, end_byte as int);
            }
            let segment = string_from_chars(chars.as_slice(), i, end_char);
            out.push_segment(segment.as_str(), i, char_to_byte.as_slice());
            proof {
                lemma_segment_fits(chars@, i as int, end_char as int);
                lemma_take_len_mono(chars@, i as int, end_char as int);
                lemma_append_ordered(m0, stack@, chars@, cb, segment_map(segment@, char_to_byte@, i as int), utf8_len(chars@.take(end_char as int)) as int);
                assert(out.output@.take(o.len() as int) =~= o);
                assert(o.take(o.len() as int) =~= o);
                lemma_entries_ok_prefix(o, out.output@, stack@, starts, o.len() as int);
                lemma_segment_map_len(segment@, char_to_byte@, i as int);
                lemma_utf8_len_concat(o, segment@);
                assert(smd_step(chars@, sv, verbatim@, items@, literal@, cur) == SmdState {
                    i: end_char as int, out: out.output@, map: out.map@, stack: stack_view(stack@, starts) });
            }
            i = end_char;
            continue;
        }
        match emoji_match(&chars, i, &syms.emoji) {
            Some((e, j)) => {
                out.push_str(e, current_byte);
                proof {
                    assert(out.output@.take(o.len() as int) =~= o);
                    assert(o.take(o.len() as int) =~= o);
                    lemma_entries_ok_prefix(o, out.output@, stack@, starts, o.len() as int);
                    lemma_utf8_len_concat(o, e@);
                    let start = i + sv.emoji.len();
                    lemma_emoji_name_end_ge(chars@, start, sv.emoji);
                    assert(smd_step(chars@, sv, verbatim@, items@, literal@, cur) == SmdState {
                        i: j as int, out: out.output@, map: out.map@, stack: stack_view(stack@, starts) });
                    lemma_repeat_fits(current_byte, utf8_len(e@), chars@, cb, cb);
                    lemma_append_ordered(m0, stack@, chars@, cb, repeat_byte(current_byte, utf8_len(e@)), cb);
                    lemma_take_len_mono(chars@, i as int, j as int);
                    lemma_ordered_weaken(out.map@, stack@, chars@, cb, utf8_len(chars@.take(j as int)) as int);
                }
                i = j;
                continue;
            },
            None => {},
        }
        let quote_open = stack_has(&stack, "NamedQuote", Ghost(starts));
        let collapse_open = stack_has(&stack, "Collapse", Ghost(starts));
        match tag_match(&chars, i, &syms, quote_open, collapse_open) {
            Some((tag_name, html_open, html_close, skip)) => {
                proof {
                    lemma_match_tag_progress(chars@, i as int, sv, quote_open, collapse_open);
                }
                let raw_symbol = string_from_chars(chars.as_slice(), i, i + skip);
                let ghost m = TagMatch { tag: tag_name@, open: html_open@, close: html_close@, skip: skip as int };
                match last_index(&stack, &tag_name, Ghost(starts)) {
                    Some(idx) => {
                        let Ghost(ns) = close_found(&mut out, &mut stack, Ghost(starts), idx, current_byte, Ghost(chars@));
                        proof {
                            starts = ns;
                        }
                    },
                    None => {
                        let Ghost(ns) = open_new(&mut out, &mut stack, Ghost(starts), tag_name, html_open, html_close, raw_symbol, current_byte, Ghost(chars@));
                        proof {
                            starts = ns;
                        }
                    },
                }
                proof {
                    let k = last_tag_index(cur.stack, m.tag);
                    if k >= 0 {
                        lemma_unwind_to_any_i(SmdState { i: 0, out: cur.out, map: cur.map, stack: cur.stack }, i as int, k + 1, current_byte);
                    }
                    assert(smd_step(chars@, sv, verbatim@, items@, literal@, cur) == apply_match(chars@, cur, m));
                    assert(apply_match(chars@, cur, m) == SmdState {
                        i: i + skip, out: out.output@, map: out.map@, stack: stack_view(stack@, starts) });
                    lemma_take_len_mono(chars@, i as int, i + skip);
                    lemma_ordered_weaken(out.map@, stack@, chars@, cb, utf8_len(chars@.take(i + skip)) as int);
                }
                i = i + skip;
            },
            None => {
                let c = chars[i];
                let in_literal = find_verbatim(literal, current_byte).is_some();
                if !in_literal && keeps_space(&chars, i, items, &char_to_byte) {
                    out.push_char('\u{a0}', current_byte);
                    proof {
                        assert(out.output@ =~= o + plain_piece(chars@, i as int, items@, literal@));
                        assert(out.output@.take(o.len() as int) =~= o);
                        assert(o.take(o.len() as int) =~= o);
                        lemma_entries_ok_prefix(o, out.output@, stack@, starts, o.len() as int);
                        lemma_utf8_len_concat(o, seq!['\u{a0}']);
                        assert(utf8_len(seq!['\u{a0}']) == 2) by {
                            assert(seq!['\u{a0}'].drop_last() =~= Seq::<char>::empty());
                        }
                        lemma_repeat_fits(current_byte, char_width('\u{a0}'), chars@, cb, cb);
                        lemma_append_ordered(m0, stack@, chars@, cb, repeat_byte(current_byte, char_width('\u{a0}')), cb);
                        lemma_take_len_mono(chars@, i as int, i + 1);
                        lemma_ordered_weaken(out.map@, stack@, chars@, cb, utf8_len(chars@.take(i + 1)) as int);
                        assert(out.map@ =~= cur.map + repeat_byte(current_byte, utf8_len(plain_piece(chars@, i as int, items@, literal@))));
                        assert(smd_step(chars@, sv, verbatim@, items@, literal@, cur) == SmdState {
                            i: i + 1, out: out.output@, map: out.map@, stack: stack_view(stack@, starts) });
                    }
                    i += 1;
                    continue;
                }
                if !in_literal && (c == '*' || c == '_' || c == '~') {
                    out.push_char('\\', current_byte);
                }
                out.push_char(c, current_byte);
                proof {
                    let piece = plain_piece(chars@, i as int, items@, literal@);
                    assert(piece == if in_literal { seq![c] } else { plain_text(c) });
                    assert(out.output@ =~= o + piece);
                    assert(out.output@.take(o.len() as int) =~= o);
                    assert(o.take(o.len() as int) =~= o);
                    lemma_entries_ok_prefix(o, out.output@, stack@, starts, o.len() as int);
                    lemma_utf8_len_concat(o, piece);
                    lemma_plain_text_len(c);
                    assert(out.map@ =~= cur.map + repeat_byte(current_byte, utf8_len(piece)));
                    assert(smd_step(chars@, sv, verbatim@, items@, literal@, cur) == SmdState {
                        i: i + 1, out: out.output@, map: out.map@, stack: stack_view(stack@, starts) });
                    lemma_repeat_fits(current_byte, utf8_len(piece), chars@, cb, cb);
                    lemma_append_ordered(m0, stack@, chars@, cb, repeat_byte(current_byte, utf8_len(piece)), cb);
                    lemma_take_len_mono(chars@, i as int, i + 1);
                    lemma_ordered_weaken(out.map@, stack@, chars@, cb, utf8_len(chars@.take(i + 1)) as int);
                }
                i += 1;
            },
        }
    }
    let ghost last = SmdState { i: i as int, out: out.output@, map: out.map@, stack: stack_view(stack@, starts) };
    proof {
        lemma_unwind_to_any_i(SmdState { i: 0, out: last.out, map: last.map, stack: last.stack }, i as int, 0, total);
    }
    proof {
        assert(chars@.take(i as int) =~= chars@);
        assert(is_char_boundary(chars@, total as int)) by {
            assert(utf8_len(chars@.take(chars@.len() as int)) == total);
        }
    }
    let Ghost(_ns) = unwind(&mut out, &mut stack, Ghost(starts), 0, total, Ghost(chars@));
    let ghost m_end = out.map@;
    out.map.push(total);
    proof {
        lemma_repeat_fits(total, 1, chars@, total as int, total as int);
        lemma_append_ordered(m_end, stack@, chars@, total as int, repeat_byte(total, 1), total as int);
        assert(out.map@ =~= m_end + repeat_byte(total, 1));
    }
    (out.output, out.map)
}

proof fn lemma_verbatim_end_after(ranges: Seq<(usize, usize)>, b: int)
    ensures
        verbatim_end(ranges, b) matches Some(e) ==> b < e,
    decreases ranges.len(),
{
    if ranges.len() > 0 && !(ranges[0].0 <= b < ranges[0].1) {
        lemma_verbatim_end_after(ranges.drop_first(), b);
    }
}

proof fn lemma_unwind_to_any_i(st: SmdState, j: int, keep: int, b: usize)
    ensures
        ({
            let u1 = unwind_to(SmdState { i: j, out: st.out, map: st.map, stack: st.stack }, keep, b);
            let u2 = unwind_to(st, keep, b);
            &&& u1.out == u2.out
            &&& u1.map == u2.map
            &&& u1.stack == u2.stack
            &&& u1.i == j
            &&& u2.i == st.i
        }),
    decreases st.stack.len(),
{
    if !(st.stack.len() <= keep || st.stack.len() == 0) {
        let e = st.stack.last();
        let popped = SmdState { i: st.i, out: st.out, map: st.map, stack: st.stack.drop_last() };
        lemma_unwind_to_any_i(emit(demote(popped, e), "</span>"@, b), j, keep, b);
    }
}

proof fn lemma_plain_text_len(c: char)
    ensures
        utf8_len(plain_text(c)) == if c == '*' || c == '_' || c == '~' { 1 + char_width(c) } else { char_width(c) },
{
    let s = plain_text(c);
    assert(('\\' as u32) == 92);
    assert(seq!['\\'].drop_last() =~= Seq::<char>::empty());
    assert(utf8_len(seq!['\\']) == utf8_len(Seq::<char>::empty()) + char_width('\\'));
    assert(seq![c].drop_last() =~= Seq::<char>::empty());
    assert(utf8_len(seq![c]) == utf8_len(Seq::<char>::empty()) + char_width(c));
    if c == '*' || c == '_' || c == '~' {
        assert(s.drop_last() =~= seq!['\\']);
        assert(utf8_len(s) == utf8_len(seq!['\\']) + char_width(c));
    } else {
        assert(s =~= seq![c]);
    }
}

proof fn lemma_segment_map_len(s: Seq<char>, c2b: Seq<usize>, start: int)
    ensures
        segment_map(s, c2b, start).len() == utf8_len(s),
    decreases s.len(),
{
    if s.len() > 0 {
        lemma_segment_map_len(s.drop_last(), c2b, start);
    }
}


/// The byte ranges of the verbatim events, of the list items and of the
/// autolinks and math spans of a parsed document, in order.
fn collect_ranges(doc: &ParsedMarkdown) -> (r: (Vec<(usize, usize)>, Vec<(usize, usize)>, Vec<(usize, usize)>))
    ensures
        r.0@ == verbatim_ranges(markdown_events(doc@)),
        r.1@ == item_ranges(markdown_events(doc@)),
        r.2@ == literal_ranges(markdown_events(doc@)),
{
    let ghost events = markdown_events(doc@);
    let n = doc.len();
    let mut r: Vec<(usize, usize)> = Vec::new();
    let mut items: Vec<(usize, usize)> = Vec::new();
    let mut literal: Vec<(usize, usize)> = Vec::new();
    let mut k: usize = 0;
    assert(events.take(0) =~= Seq::<MdEventInfo>::empty());
    while k < n
        invariant
            k <= n,
            n == events.len(),
            events == markdown_events(doc@),
            r@ == verbatim_ranges(events.take(k as int)),
            items@ == item_ranges(events.take(k as int)),
            literal@ == literal_ranges(events.take(k as int)),
        decreases n - k,
    {
        let kind = doc.kind(k);
        let tag = doc.tag(k);
        let verbatim = match kind {
            EventKind::Start => match tag {
                TagKind::CodeBlock => true,
                _ => false,
            },
            EventKind::Code => true,
            EventKind::Html => true,
            EventKind::InlineHtml => true,
            _ => false,
        };
        let item = match kind {
            EventKind::Start => match tag {
                TagKind::Item => true,
                _ => false,
            },
            _ => false,
        };
        let literal_here = match kind {
            EventKind::Start => doc.is_autolink(k),
            EventKind::Math => true,
            _ => false,
        };
        assert(events.take(k + 1).drop_last() =~= events.take(k as int));
        assert(events.take(k + 1).last() == events[k as int]);
        if verbatim {
            r.push(doc.range(k));
        }
        if item {
            items.push(doc.range(k));
        }
        if literal_here {
            literal.push(doc.range(k));
        }
        k += 1;
    }
    assert(events.take(n as int) =~= events);
    (r, items, literal)
}

/// Preprocesses `text` with the symbols of `config`. Code blocks, inline code
/// and raw HTML, as pulldown-cmark finds them, stay as written, and so do
/// the indentation of its list items and the text of its autolinks and math
/// spans. Returns the text for the markdown
/// parser and, for each of its bytes and one past its end, the source byte it
/// came from.
pub fn preprocess_smd(text: &str, config: &Config) -> (r: (String, Vec<usize>))
    ensures
        (r.0@, r.1@) == smd_preprocess(
            text@,
            smd_symbols(*config),
            verbatim_ranges(markdown_events(text@)),
            item_ranges(markdown_events(text@)),
            literal_ranges(markdown_events(text@)),
        ),
        r.1@.len() == utf8_len(r.0@) + 1,
        r.1@.last() == utf8_len(text@),
        map_within(r.1@, utf8_len(text@) as int),
        map_sorted(r.1@),
        map_on_boundaries(r.1@, text@),
{
    let doc = parse_markdown(text);
    let (verbatim, items, literal) = collect_ranges(&doc);
    preprocess_with_verbatim(text, config, verbatim.as_slice(), items.as_slice(), literal.as_slice())
}

/// The first `n` characters of `chars` as plain text: each through `plain_piece`.
pub open spec fn plain_upto(chars: Seq<char>, items: Seq<(usize, usize)>, literal: Seq<(usize, usize)>, n: int) -> Seq<char>
    decreases n,
{
    if n <= 0 {
        Seq::empty()
    } else {
        plain_upto(chars, items, literal, n - 1) + plain_piece(chars, n - 1, items, literal)
    }
}

/// The map of `plain_upto(chars, items, literal, n)`: the bytes written for each
/// character map to the byte where that character stands.
pub open spec fn plain_map_upto(chars: Seq<char>, items: Seq<(usize, usize)>, literal: Seq<(usize, usize)>, n: int) -> Seq<usize>
    decreases n,
{
    if n <= 0 {
        Seq::empty()
    } else {
        plain_map_upto(chars, items, literal, n - 1) + repeat_byte(
            utf8_len(chars.take(n - 1)) as usize,
            utf8_len(plain_piece(chars, n - 1, items, literal)),
        )
    }
}

proof fn lemma_plain_run(chars: Seq<char>, syms: SmdSymbols, verbatim: Seq<(usize, usize)>, items: Seq<(usize, usize)>, literal: Seq<(usize, usize)>, i: int)
    requires
        verbatim.len() == 0,
        0 <= i <= chars.len(),
        forall|k: int| 0 <= k < chars.len() ==> (#[trigger] match_tag(chars, k, syms, false, false)) is None
            && emoji_at(chars, k, syms.emoji) is None,
    ensures
        smd_run(chars, syms, verbatim, items, literal, SmdState { i, out: plain_upto(chars, items, literal, i), map: plain_map_upto(chars, items, literal, i), stack: Seq::empty() })
            == (SmdState { i: chars.len() as int, out: plain_upto(chars, items, literal, chars.len() as int), map: plain_map_upto(chars, items, literal, chars.len() as int), stack: Seq::empty() }),
    decreases chars.len() - i,
{
    let st = SmdState { i, out: plain_upto(chars, items, literal, i), map: plain_map_upto(chars, items, literal, i), stack: Seq::<SmdEntry>::empty() };
    if i < chars.len() {
        assert(match_tag(chars, i, syms, false, false) is None);
        assert(!has_tag(st.stack, "NamedQuote"@));
        assert(!has_tag(st.stack, "Collapse"@));
        let next = smd_step(chars, syms, verbatim, items, literal, st);
        assert(next == SmdState { i: i + 1, out: plain_upto(chars, items, literal, i + 1), map: plain_map_upto(chars, items, literal, i + 1), stack: Seq::<SmdEntry>::empty() });
        lemma_plain_run(chars, syms, verbatim, items, literal, i + 1);
    }
}

/// Text in which no configured symbol and no emoji occurs, outside any code
/// or raw HTML, comes out as plain text: only the configured symbols format,
/// the emphasis marks of standard markdown are escaped (outside autolinks and
/// math spans), and the spaces that the preview would collapse are kept.
pub proof fn lemma_plain_text_passes(chars: Seq<char>, syms: SmdSymbols, verbatim: Seq<(usize, usize)>, items: Seq<(usize, usize)>, literal: Seq<(usize, usize)>)
    requires
        verbatim.len() == 0,
        forall|k: int| 0 <= k < chars.len() ==> (#[trigger] match_tag(chars, k, syms, false, false)) is None
            && emoji_at(chars, k, syms.emoji) is None,
    ensures
        smd_preprocess(chars, syms, verbatim, items, literal).0 == plain_upto(chars, items, literal, chars.len() as int),
        smd_preprocess(chars, syms, verbatim, items, literal).1 == plain_map_upto(chars, items, literal, chars.len() as int).push(utf8_len(chars) as usize),
{
    lemma_plain_run(chars, syms, verbatim, items, literal, 0);
}

proof fn lemma_plain_upto_literal(chars: Seq<char>, items: Seq<(usize, usize)>, literal: Seq<(usize, usize)>, n: int)
    requires
        utf8_len(chars) <= usize::MAX,
        literal == seq![(0usize, utf8_len(chars) as usize)],
        0 <= n <= chars.len(),
    ensures
        plain_upto(chars, items, literal, n) == chars.take(n),
    decreases n,
{
    if n > 0 {
        lemma_plain_upto_literal(chars, items, literal, n - 1);
        lemma_utf8_len_take_le(chars, n - 1);
        assert(verbatim_end(literal, utf8_len(chars.take(n - 1)) as int) is Some);
        assert(chars.take(n) =~= chars.take(n - 1) + seq![chars[n - 1]]);
    }
}

/// Inside an autolink or a math span nothing is escaped and no space is
/// replaced: text in which no configured symbol and no emoji occurs, read by
/// the markdown parser as one such span, comes out exactly as written.
pub proof fn lemma_literal_text_unchanged(chars: Seq<char>, syms: SmdSymbols, items: Seq<(usize, usize)>)
    requires
        utf8_len(chars) <= usize::MAX,
        forall|k: int| 0 <= k < chars.len() ==> (#[trigger] match_tag(chars, k, syms, false, false)) is None
            && emoji_at(chars, k, syms.emoji) is None,
    ensures
        smd_preprocess(chars, syms, Seq::empty(), items, seq![(0usize, utf8_len(chars) as usize)]).0 == chars,
{
    let literal = seq![(0usize, utf8_len(chars) as usize)];
    lemma_plain_text_passes(chars, syms, Seq::empty(), items, literal);
    lemma_plain_upto_literal(chars, items, literal, chars.len() as int);
    assert(chars.take(chars.len() as int) =~= chars);
}

/// A disabled formatter's symbol is found nowhere: it stays plain text.
pub proof fn lemma_disabled_symbol_inert(e: FormatterEntry, chars: Seq<char>, i: int)
    requires
        !e.enabled,
    ensures
        !symbol_at(chars, i, active_symbol(e)),
{
}

/// Escaped text holds no angle bracket, and text with nothing to escape is
/// left as it is.
pub proof fn lemma_xml_escaped_safe(s: Seq<char>)
    ensures
        forall|k: int| 0 <= k < xml_escaped(s).len() ==> #[trigger] xml_escaped(s)[k] != '<' && xml_escaped(s)[k] != '>',
        (forall|k: int| 0 <= k < s.len() ==> #[trigger] s[k] != '&' && s[k] != '<' && s[k] != '>') ==> xml_escaped(s) == s,
    decreases s.len(),
{
    if s.len() > 0 {
        lemma_xml_escaped_safe(s.drop_last());
        let a = xml_escaped(s.drop_last());
        let c = escape_char(s.last());
        reveal_strlit("&amp;");
        reveal_strlit("&lt;");
        reveal_strlit("&gt;");
        assert forall|k: int| 0 <= k < xml_escaped(s).len() implies #[trigger] xml_escaped(s)[k] != '<' && xml_escaped(s)[k] != '>' by {
            if k >= a.len() {
                assert(xml_escaped(s)[k] == c[k - a.len()]);
            } else {
                assert(xml_escaped(s)[k] == a[k]);
            }
        }
        if forall|k: int| 0 <= k < s.len() ==> #[trigger] s[k] != '&' && s[k] != '<' && s[k] != '>' {
            assert(s[s.len() - 1] == s.last());
            assert forall|k: int| 0 <= k < s.drop_last().len() implies #[trigger] s.drop_last()[k] != '&' && s.drop_last()[k] != '<' && s.drop_last()[k] != '>' by {
                assert(s.drop_last()[k] == s[k]);
            }
            assert(s.drop_last().push(s.last()) =~= s);
        }
    }
}

} // verus!
