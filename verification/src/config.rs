//! The editor's configuration model: formatter symbols, hotkeys, appearance
//! and recent files, with their defaults and the rules that combine them.

use vstd::prelude::*;
use crate::text::str_eq;

verus! {

/// One formatting symbol and how the editor treats it.
#[derive(Debug, Clone)]
pub struct FormatterEntry {
    pub symbol: String,
    /// Whether the formatter shows in the toolbar.
    pub visible: bool,
    /// Whether the formatter is parsed at all. `visible` only controls the toolbar.
    pub enabled: bool,
    pub icon_name: String,
}

/// The entry has the given symbol, toolbar visibility and icon, and is enabled.
pub open spec fn entry_is(e: FormatterEntry, symbol: Seq<char>, visible: bool, icon: Seq<char>) -> bool {
    &&& e.symbol@ == symbol
    &&& e.visible == visible
    &&& e.enabled
    &&& e.icon_name@ == icon
}

impl FormatterEntry {
    pub fn new(symbol: &str, visible: bool, icon_name: &str) -> (r: Self)
        ensures
            entry_is(r, symbol@, visible, icon_name@),
    {
        FormatterEntry {
            symbol: symbol.to_owned(),
            visible,
            enabled: true,
            icon_name: icon_name.to_owned(),
        }
    }

    /// A copy of this entry.
    pub fn duplicate(&self) -> (r: Self)
        ensures
            r == *self,
    {
        FormatterEntry {
            symbol: self.symbol.clone(),
            visible: self.visible,
            enabled: self.enabled,
            icon_name: self.icon_name.clone(),
        }
    }
}

/// The formatting symbols of Sascha Flavored Markdown, one entry per formatter.
#[derive(Debug, Clone)]
pub struct FormatterConfig {
    pub italics: FormatterEntry,
    pub bold: FormatterEntry,
    pub underscore: FormatterEntry,
    pub strikethrough: FormatterEntry,
    pub paragraph: FormatterEntry,
    pub preformatted: FormatterEntry,
    pub font_size_change: FormatterEntry,
    pub align_left: FormatterEntry,
    pub align_right: FormatterEntry,
    pub align_center: FormatterEntry,
    pub align_justify: FormatterEntry,
    pub superscript: FormatterEntry,
    pub subscript: FormatterEntry,
    pub code_block: FormatterEntry,
    pub blockquote: FormatterEntry,
    pub nested_blockquote: FormatterEntry,
    pub escape_char: FormatterEntry,
    pub font_color: FormatterEntry,
    pub highlight: FormatterEntry,
    pub table_start: FormatterEntry,
    pub table_row: FormatterEntry,
    pub table_cell: FormatterEntry,
    pub url_link: FormatterEntry,
    pub image_insert: FormatterEntry,
    pub unordered_list: FormatterEntry,
    pub ordered_list: FormatterEntry,
    pub task_list: FormatterEntry,
    pub quote: FormatterEntry,
    pub named_quote: FormatterEntry,
    pub spoiler: FormatterEntry,
    pub horizontal_rule: FormatterEntry,
    pub heading_prefix: FormatterEntry,
    pub heading_id: FormatterEntry,
    pub footnote: FormatterEntry,
    pub emoji_prefix: FormatterEntry,
    pub collapse: FormatterEntry,
}

/// The number of formatters.
pub const FORMATTER_COUNT: usize = 36;

/// The display names of the formatters, in the order of `FormatterConfig::entries`.
pub open spec fn formatter_names() -> Seq<Seq<char>> {
    seq![
        "Italics"@,
        "Bold"@,
        "Underscore"@,
        "Strikethrough"@,
        "Paragraph"@,
        "Preformatted"@,
        "Font Size Change"@,
        "Align Left"@,
        "Align Right"@,
        "Align Center"@,
        "Align Justify"@,
        "Superscript"@,
        "Subscript"@,
        "Code Block"@,
        "Blockquote"@,
        "Nested Blockquote"@,
        "Escape Char"@,
        "Font Color"@,
        "Highlight"@,
        "Table Start"@,
        "Table Row"@,
        "Table Cell"@,
        "URL Link"@,
        "Image Insert"@,
        "Unordered List"@,
        "Ordered List"@,
        "Task List"@,
        "Quote"@,
        "Named Quote"@,
        "Spoiler"@,
        "Horizontal Rule"@,
        "Heading Prefix"@,
        "Heading ID"@,
        "Footnote"@,
        "Emoji Prefix"@,
        "Collapse"@,
    ]
}

/// The entries of `c`, listed in the same order as `formatter_names`.
pub open spec fn formatter_entries(c: FormatterConfig) -> Seq<FormatterEntry> {
    seq![
        c.italics,
        c.bold,
        c.underscore,
        c.strikethrough,
        c.paragraph,
        c.preformatted,
        c.font_size_change,
        c.align_left,
        c.align_right,
        c.align_center,
        c.align_justify,
        c.superscript,
        c.subscript,
        c.code_block,
        c.blockquote,
        c.nested_blockquote,
        c.escape_char,
        c.font_color,
        c.highlight,
        c.table_start,
        c.table_row,
        c.table_cell,
        c.url_link,
        c.image_insert,
        c.unordered_list,
        c.ordered_list,
        c.task_list,
        c.quote,
        c.named_quote,
        c.spoiler,
        c.horizontal_rule,
        c.heading_prefix,
        c.heading_id,
        c.footnote,
        c.emoji_prefix,
        c.collapse,
    ]
}

/// `c` holds the default formatters.
pub open spec fn is_default_formatters(c: FormatterConfig) -> bool {
    &&& entry_is(c.italics, "*"@, true, "format-text-italic-symbolic"@)
    &&& entry_is(c.bold, "**"@, true, "format-text-bold-symbolic"@)
    &&& entry_is(c.underscore, "_"@, true, "format-text-underline-symbolic"@)
    &&& entry_is(c.strikethrough, "~~"@, true, "format-text-strikethrough-symbolic"@)
    &&& entry_is(c.paragraph, "\n\n"@, false, "insert-text-symbolic"@)
    &&& entry_is(c.preformatted, "```"@, true, "text-x-generic-symbolic"@)
    &&& entry_is(c.font_size_change, "size:"@, false, "format-text-larger-symbolic"@)
    &&& entry_is(c.align_left, "[:left]"@, false, "format-justify-left-symbolic"@)
    &&& entry_is(c.align_right, "[:right]"@, false, "format-justify-right-symbolic"@)
    &&& entry_is(c.align_center, "[:center]"@, false, "format-justify-center-symbolic"@)
    &&& entry_is(c.align_justify, "[:justify]"@, false, "format-justify-fill-symbolic"@)
    &&& entry_is(c.superscript, "^"@, true, "format-text-superscript-symbolic"@)
    &&& entry_is(c.subscript, "~"@, true, "format-text-subscript-symbolic"@)
    &&& entry_is(c.code_block, "```"@, true, "applications-engineering-symbolic"@)
    &&& entry_is(c.blockquote, "> "@, true, "format-indent-more-symbolic"@)
    &&& entry_is(c.nested_blockquote, ">> "@, true, "format-indent-more-symbolic"@)
    &&& entry_is(c.escape_char, "\\"@, false, "media-playlist-consecutive-symbolic"@)
    &&& entry_is(c.font_color, "color:"@, false, "format-fill-color-symbolic"@)
    &&& entry_is(c.highlight, "=="@, true, "emblem-favorite-symbolic"@)
    &&& entry_is(c.table_start, "|"@, true, "view-grid-symbolic"@)
    &&& entry_is(c.table_row, "|"@, true, "view-grid-symbolic"@)
    &&& entry_is(c.table_cell, "|"@, true, "view-grid-symbolic"@)
    &&& entry_is(c.url_link, "[]()"@, true, "insert-link-symbolic"@)
    &&& entry_is(c.image_insert, "![]()"@, true, "insert-image-symbolic"@)
    &&& entry_is(c.unordered_list, "- "@, true, "view-list-symbolic"@)
    &&& entry_is(c.ordered_list, "1. "@, true, "view-sort-ascending-symbolic"@)
    &&& entry_is(c.task_list, "- [ ] "@, true, "emblem-ok-symbolic"@)
    &&& entry_is(c.quote, "\""@, true, "format-indent-more-symbolic"@)
    &&& entry_is(c.named_quote, "quote:"@, true, "format-indent-more-symbolic"@)
    &&& entry_is(c.spoiler, "||"@, true, "view-conceal-symbolic"@)
    &&& entry_is(c.horizontal_rule, "---"@, true, "window-minimize-symbolic"@)
    &&& entry_is(c.heading_prefix, "#"@, true, "format-text-larger-symbolic"@)
    &&& entry_is(c.heading_id, "{#}"@, false, "tag-symbolic"@)
    &&& entry_is(c.footnote, "[^]"@, false, "index-symbolic"@)
    &&& entry_is(c.emoji_prefix, ":"@, true, "face-smile-symbolic"@)
    &&& entry_is(c.collapse, "+++"@, false, "go-down-symbolic"@)
}

/// The first index `k >= from` whose formatter name is `name`, or the count of formatters.
pub open spec fn formatter_index_from(name: Seq<char>, from: int) -> int
    decreases 36 - from,
{
    if from >= 36 || from < 0 {
        36
    } else if formatter_names()[from] == name {
        from
    } else {
        formatter_index_from(name, from + 1)
    }
}

impl FormatterConfig {
    /// The default formatters.
    pub fn new_default() -> (r: Self)
        ensures
            is_default_formatters(r),
    {
        FormatterConfig {
            italics: FormatterEntry::new("*", true, "format-text-italic-symbolic"),
            bold: FormatterEntry::new("**", true, "format-text-bold-symbolic"),
            underscore: FormatterEntry::new("_", true, "format-text-underline-symbolic"),
            strikethrough: FormatterEntry::new("~~", true, "format-text-strikethrough-symbolic"),
            paragraph: FormatterEntry::new("\n\n", false, "insert-text-symbolic"),
            preformatted: FormatterEntry::new("```", true, "text-x-generic-symbolic"),
            font_size_change: FormatterEntry::new("size:", false, "format-text-larger-symbolic"),
            align_left: FormatterEntry::new("[:left]", false, "format-justify-left-symbolic"),
            align_right: FormatterEntry::new("[:right]", false, "format-justify-right-symbolic"),
            align_center: FormatterEntry::new("[:center]", false, "format-justify-center-symbolic"),
            align_justify: FormatterEntry::new("[:justify]", false, "format-justify-fill-symbolic"),
            superscript: FormatterEntry::new("^", true, "format-text-superscript-symbolic"),
            subscript: FormatterEntry::new("~", true, "format-text-subscript-symbolic"),
            code_block: FormatterEntry::new("```", true, "applications-engineering-symbolic"),
            blockquote: FormatterEntry::new("> ", true, "format-indent-more-symbolic"),
            nested_blockquote: FormatterEntry::new(">> ", true, "format-indent-more-symbolic"),
            escape_char: FormatterEntry::new("\\", false, "media-playlist-consecutive-symbolic"),
            font_color: FormatterEntry::new("color:", false, "format-fill-color-symbolic"),
            highlight: FormatterEntry::new("==", true, "emblem-favorite-symbolic"),
            table_start: FormatterEntry::new("|", true, "view-grid-symbolic"),
            table_row: FormatterEntry::new("|", true, "view-grid-symbolic"),
            table_cell: FormatterEntry::new("|", true, "view-grid-symbolic"),
            url_link: FormatterEntry::new("[]()", true, "insert-link-symbolic"),
            image_insert: FormatterEntry::new("![]()", true, "insert-image-symbolic"),
            unordered_list: FormatterEntry::new("- ", true, "view-list-symbolic"),
            ordered_list: FormatterEntry::new("1. ", true, "view-sort-ascending-symbolic"),
            task_list: FormatterEntry::new("- [ ] ", true, "emblem-ok-symbolic"),
            quote: FormatterEntry::new("\"", true, "format-indent-more-symbolic"),
            named_quote: FormatterEntry::new("quote:", true, "format-indent-more-symbolic"),
            spoiler: FormatterEntry::new("||", true, "view-conceal-symbolic"),
            horizontal_rule: FormatterEntry::new("---", true, "window-minimize-symbolic"),
            heading_prefix: FormatterEntry::new("#", true, "format-text-larger-symbolic"),
            heading_id: FormatterEntry::new("{#}", false, "tag-symbolic"),
            footnote: FormatterEntry::new("[^]", false, "index-symbolic"),
            emoji_prefix: FormatterEntry::new(":", true, "face-smile-symbolic"),
            collapse: FormatterEntry::new("+++", false, "go-down-symbolic"),
        }
    }

    /// The entry at position `k` of `formatter_entries`.
    fn entry_at(&self, k: usize) -> (r: &FormatterEntry)
        requires k < 36,
        ensures *r == formatter_entries(*self)[k as int],
    {
        if k == 0 {
            &self.italics
        } else if k == 1 {
            &self.bold
        } else if k == 2 {
            &self.underscore
        } else if k == 3 {
            &self.strikethrough
        } else if k == 4 {
            &self.paragraph
        } else if k == 5 {
            &self.preformatted
        } else if k == 6 {
            &self.font_size_change
        } else if k == 7 {
            &self.align_left
        } else if k == 8 {
            &self.align_right
        } else if k == 9 {
            &self.align_center
        } else if k == 10 {
            &self.align_justify
        } else if k == 11 {
            &self.superscript
        } else if k == 12 {
            &self.subscript
        } else if k == 13 {
            &self.code_block
        } else if k == 14 {
            &self.blockquote
        } else if k == 15 {
            &self.nested_blockquote
        } else if k == 16 {
            &self.escape_char
        } else if k == 17 {
            &self.font_color
        } else if k == 18 {
            &self.highlight
        } else if k == 19 {
            &self.table_start
        } else if k == 20 {
            &self.table_row
        } else if k == 21 {
            &self.table_cell
        } else if k == 22 {
            &self.url_link
        } else if k == 23 {
            &self.image_insert
        } else if k == 24 {
            &self.unordered_list
        } else if k == 25 {
            &self.ordered_list
        } else if k == 26 {
            &self.task_list
        } else if k == 27 {
            &self.quote
        } else if k == 28 {
            &self.named_quote
        } else if k == 29 {
            &self.spoiler
        } else if k == 30 {
            &self.horizontal_rule
        } else if k == 31 {
            &self.heading_prefix
        } else if k == 32 {
            &self.heading_id
        } else if k == 33 {
            &self.footnote
        } else if k == 34 {
            &self.emoji_prefix
        } else {
            &self.collapse
        }
    }

    /// The name at position `k` of `formatter_names`.
    fn name_at(k: usize) -> (r: &'static str)
        requires k < 36,
        ensures r@ == formatter_names()[k as int],
    {
        if k == 0 {
            "Italics"
        } else if k == 1 {
            "Bold"
        } else if k == 2 {
            "Underscore"
        } else if k == 3 {
            "Strikethrough"
        } else if k == 4 {
            "Paragraph"
        } else if k == 5 {
            "Preformatted"
        } else if k == 6 {
            "Font Size Change"
        } else if k == 7 {
            "Align Left"
        } else if k == 8 {
            "Align Right"
        } else if k == 9 {
            "Align Center"
        } else if k == 10 {
            "Align Justify"
        } else if k == 11 {
            "Superscript"
        } else if k == 12 {
            "Subscript"
        } else if k == 13 {
            "Code Block"
        } else if k == 14 {
            "Blockquote"
        } else if k == 15 {
            "Nested Blockquote"
        } else if k == 16 {
            "Escape Char"
        } else if k == 17 {
            "Font Color"
        } else if k == 18 {
            "Highlight"
        } else if k == 19 {
            "Table Start"
        } else if k == 20 {
            "Table Row"
        } else if k == 21 {
            "Table Cell"
        } else if k == 22 {
            "URL Link"
        } else if k == 23 {
            "Image Insert"
        } else if k == 24 {
            "Unordered List"
        } else if k == 25 {
            "Ordered List"
        } else if k == 26 {
            "Task List"
        } else if k == 27 {
            "Quote"
        } else if k == 28 {
            "Named Quote"
        } else if k == 29 {
            "Spoiler"
        } else if k == 30 {
            "Horizontal Rule"
        } else if k == 31 {
            "Heading Prefix"
        } else if k == 32 {
            "Heading ID"
        } else if k == 33 {
            "Footnote"
        } else if k == 34 {
            "Emoji Prefix"
        } else {
            "Collapse"
        }
    }

    /// Replaces the entry at position `k` of `formatter_entries`.
    fn set_entry(&mut self, k: usize, e: FormatterEntry)
        requires k < 36,
        ensures formatter_entries(*final(self)) == formatter_entries(*old(self)).update(k as int, e),
    {
        if k == 0 {
            self.italics = e;
        } else if k == 1 {
            self.bold = e;
        } else if k == 2 {
            self.underscore = e;
        } else if k == 3 {
            self.strikethrough = e;
        } else if k == 4 {
            self.paragraph = e;
        } else if k == 5 {
            self.preformatted = e;
        } else if k == 6 {
            self.font_size_change = e;
        } else if k == 7 {
            self.align_left = e;
        } else if k == 8 {
            self.align_right = e;
        } else if k == 9 {
            self.align_center = e;
        } else if k == 10 {
            self.align_justify = e;
        } else if k == 11 {
            self.superscript = e;
        } else if k == 12 {
            self.subscript = e;
        } else if k == 13 {
            self.code_block = e;
        } else if k == 14 {
            self.blockquote = e;
        } else if k == 15 {
            self.nested_blockquote = e;
        } else if k == 16 {
            self.escape_char = e;
        } else if k == 17 {
            self.font_color = e;
        } else if k == 18 {
            self.highlight = e;
        } else if k == 19 {
            self.table_start = e;
        } else if k == 20 {
            self.table_row = e;
        } else if k == 21 {
            self.table_cell = e;
        } else if k == 22 {
            self.url_link = e;
        } else if k == 23 {
            self.image_insert = e;
        } else if k == 24 {
            self.unordered_list = e;
        } else if k == 25 {
            self.ordered_list = e;
        } else if k == 26 {
            self.task_list = e;
        } else if k == 27 {
            self.quote = e;
        } else if k == 28 {
            self.named_quote = e;
        } else if k == 29 {
            self.spoiler = e;
        } else if k == 30 {
            self.horizontal_rule = e;
        } else if k == 31 {
            self.heading_prefix = e;
        } else if k == 32 {
            self.heading_id = e;
        } else if k == 33 {
            self.footnote = e;
        } else if k == 34 {
            self.emoji_prefix = e;
        } else {
            self.collapse = e;
        }
        assert(formatter_entries(*self) =~= formatter_entries(*old(self)).update(k as int, e));
    }
}


/// The formatter entries after applying the named replacement: the first
/// formatter called `name` gets `e`; an unknown name changes nothing.
pub open spec fn apply_formatter_update(es: Seq<FormatterEntry>, name: Seq<char>, e: FormatterEntry) -> Seq<FormatterEntry> {
    let k = formatter_index_from(name, 0);
    if k < FORMATTER_COUNT {
        es.update(k, e)
    } else {
        es
    }
}

/// The formatter entries after applying the replacements of `ups` in order.
pub open spec fn apply_formatter_updates(es: Seq<FormatterEntry>, ups: Seq<(String, FormatterEntry)>) -> Seq<FormatterEntry>
    decreases ups.len(),
{
    if ups.len() == 0 {
        es
    } else {
        apply_formatter_update(apply_formatter_updates(es, ups.drop_last()), ups.last().0@, ups.last().1)
    }
}

impl FormatterConfig {
    /// The position of the formatter called `name`, or the number of formatters if none is.
    fn formatter_index(name: &str) -> (r: usize)
        ensures
            r == formatter_index_from(name@, 0),
    {
        let mut j: usize = 0;
        while j < FORMATTER_COUNT
            invariant
                j <= FORMATTER_COUNT,
                formatter_index_from(name@, 0) == formatter_index_from(name@, j as int),
            decreases FORMATTER_COUNT - j,
        {
            if str_eq(name, Self::name_at(j)) {
                return j;
            }
            j += 1;
        }
        j
    }

    /// Every formatter with its display name, in the order of `formatter_names`.
    pub fn all_formatters(&self) -> (r: Vec<(String, FormatterEntry)>)
        ensures
            r@.len() == FORMATTER_COUNT,
            forall|k: int| 0 <= k < FORMATTER_COUNT ==> (#[trigger] r@[k]).0@ == formatter_names()[k]
                && r@[k].1 == formatter_entries(*self)[k],
    {
        let mut r: Vec<(String, FormatterEntry)> = Vec::new();
        let mut k: usize = 0;
        while k < FORMATTER_COUNT
            invariant
                k <= FORMATTER_COUNT,
                r@.len() == k,
                forall|j: int| 0 <= j < k ==> (#[trigger] r@[j]).0@ == formatter_names()[j]
                    && r@[j].1 == formatter_entries(*self)[j],
            decreases FORMATTER_COUNT - k,
        {
            let name = Self::name_at(k).to_owned();
            let entry = self.entry_at(k).duplicate();
            r.push((name, entry));
            k += 1;
        }
        r
    }

    /// Replaces, in order, the entry of each named formatter; unknown names are ignored.
    pub fn update_from_vec(&mut self, formatters: Vec<(String, FormatterEntry)>)
        ensures
            formatter_entries(*final(self)) == apply_formatter_updates(formatter_entries(*old(self)), formatters@),
    {
        let mut i: usize = 0;
        while i < formatters.len()
            invariant
                i <= formatters@.len(),
                formatter_entries(*self) == apply_formatter_updates(formatter_entries(*old(self)), formatters@.take(i as int)),
            decreases formatters@.len() - i,
        {
            let k = Self::formatter_index(formatters[i].0.as_str());
            let e = formatters[i].1.duplicate();
            assert(formatters@.take(i + 1).drop_last() =~= formatters@.take(i as int));
            if k < FORMATTER_COUNT {
                self.set_entry(k, e);
            }
            i += 1;
        }
        assert(formatters@.take(formatters@.len() as int) =~= formatters@);
    }
}

impl Default for FormatterConfig {
    fn default() -> (r: Self)
        ensures
            is_default_formatters(r),
    {
        Self::new_default()
    }
}


/// The map that a list of (name, shortcut) pairs describes; a later pair wins.
pub open spec fn pairs_to_map(s: Seq<(String, String)>) -> Map<Seq<char>, Seq<char>>
    decreases s.len(),
{
    if s.len() == 0 {
        Map::empty()
    } else {
        pairs_to_map(s.drop_last()).insert(s.last().0@, s.last().1@)
    }
}

/// No two pairs share a name.
pub open spec fn distinct_keys(s: Seq<(String, String)>) -> bool {
    forall|i: int, j: int| 0 <= i < j < s.len() ==> (#[trigger] s[i]).0@ != (#[trigger] s[j]).0@
}

proof fn lemma_pairs_to_map_contains(s: Seq<(String, String)>, k: Seq<char>)
    ensures
        pairs_to_map(s).contains_key(k) <==> exists|i: int| 0 <= i < s.len() && (#[trigger] s[i]).0@ == k,
    decreases s.len(),
{
    if s.len() > 0 {
        lemma_pairs_to_map_contains(s.drop_last(), k);
        if pairs_to_map(s).contains_key(k) && s.last().0@ != k {
            let i = choose|i: int| 0 <= i < s.drop_last().len() && (#[trigger] s.drop_last()[i]).0@ == k;
            assert(s[i] == s.drop_last()[i]);
        }
        if exists|i: int| 0 <= i < s.len() && (#[trigger] s[i]).0@ == k {
            let i = choose|i: int| 0 <= i < s.len() && (#[trigger] s[i]).0@ == k;
            if i < s.len() - 1 {
                assert(s.drop_last()[i] == s[i]);
            }
        }
    }
}

proof fn lemma_pairs_to_map_value(s: Seq<(String, String)>, i: int)
    requires
        distinct_keys(s),
        0 <= i < s.len(),
    ensures
        pairs_to_map(s).contains_key(s[i].0@),
        pairs_to_map(s)[s[i].0@] == s[i].1@,
    decreases s.len(),
{
    if i < s.len() - 1 {
        assert(s.drop_last()[i] == s[i]);
        assert(distinct_keys(s.drop_last())) by {
            assert forall|a: int, b: int| 0 <= a < b < s.drop_last().len()
                implies (#[trigger] s.drop_last()[a]).0@ != (#[trigger] s.drop_last()[b]).0@ by {
                assert(s.drop_last()[a] == s[a] && s.drop_last()[b] == s[b]);
            }
        }
        lemma_pairs_to_map_value(s.drop_last(), i);
        assert(s[i].0@ != s[s.len() - 1].0@);
    }
}

proof fn lemma_pairs_to_map_update(s: Seq<(String, String)>, i: int, p: (String, String))
    requires
        distinct_keys(s),
        0 <= i < s.len(),
        s[i].0@ == p.0@,
    ensures
        pairs_to_map(s.update(i, p)) == pairs_to_map(s).insert(p.0@, p.1@),
    decreases s.len(),
{
    let t = s.update(i, p);
    if i == s.len() - 1 {
        assert(t.drop_last() =~= s.drop_last());
        assert(pairs_to_map(s).insert(p.0@, p.1@) =~= pairs_to_map(s.drop_last()).insert(p.0@, p.1@));
    } else {
        assert(distinct_keys(s.drop_last())) by {
            assert forall|a: int, b: int| 0 <= a < b < s.drop_last().len()
                implies (#[trigger] s.drop_last()[a]).0@ != (#[trigger] s.drop_last()[b]).0@ by {
                assert(s.drop_last()[a] == s[a] && s.drop_last()[b] == s[b]);
            }
        }
        assert(t.drop_last() =~= s.drop_last().update(i, p));
        lemma_pairs_to_map_update(s.drop_last(), i, p);
        assert(s[i].0@ != s.last().0@);
        assert(pairs_to_map(t) =~= pairs_to_map(s).insert(p.0@, p.1@));
    }
}

proof fn lemma_pairs_to_map_same_views(s: Seq<(String, String)>, t: Seq<(String, String)>)
    requires
        s.len() == t.len(),
        forall|j: int| 0 <= j < s.len() ==> (#[trigger] s[j]).0@ == t[j].0@ && s[j].1@ == t[j].1@,
    ensures
        pairs_to_map(s) == pairs_to_map(t),
        distinct_keys(t) ==> distinct_keys(s),
    decreases s.len(),
{
    if s.len() > 0 {
        lemma_pairs_to_map_same_views(s.drop_last(), t.drop_last());
    }
    if distinct_keys(t) {
        assert forall|a: int, b: int| 0 <= a < b < s.len() implies (#[trigger] s[a]).0@ != (#[trigger] s[b]).0@ by {
            assert(t[a].0@ != t[b].0@);
        }
    }
}

/// The keyboard shortcut of each action and formatter, by name.
#[derive(Debug)]
pub struct HotkeysConfig {
    mappings: Vec<(String, String)>,
}

impl View for HotkeysConfig {
    type V = Map<Seq<char>, Seq<char>>;

    closed spec fn view(&self) -> Map<Seq<char>, Seq<char>> {
        pairs_to_map(self.mappings@)
    }
}

/// The shortcut that `m` gives `name`, or the empty string.
pub open spec fn hotkey_of(m: Map<Seq<char>, Seq<char>>, name: Seq<char>) -> Seq<char> {
    if m.contains_key(name) {
        m[name]
    } else {
        Seq::empty()
    }
}

/// The shortcuts the editor starts with.
pub open spec fn default_hotkeys() -> Map<Seq<char>, Seq<char>> {
    Map::empty()
        .insert("Bold"@, "<Control>b"@)
        .insert("Italics"@, "<Control>i"@)
        .insert("Underscore"@, "<Control>u"@)
        .insert("Strikethrough"@, "<Control>d"@)
        .insert("Save"@, "<Control>s"@)
        .insert("Open"@, "<Control>o"@)
        .insert("New File"@, "<Control>n"@)
        .insert("Undo"@, "<Control>z"@)
        .insert("Redo"@, "<Control><Shift>z"@)
}

/// The actions listed before the formatters in the hotkey settings.
pub open spec fn hotkey_actions() -> Seq<Seq<char>> {
    seq!["Save"@, "Open"@, "New File"@, "Undo"@, "Redo"@]
}

impl HotkeysConfig {
    #[verifier::type_invariant]
    spec fn keys_are_distinct(self) -> bool {
        distinct_keys(self.mappings@)
    }

    /// No shortcuts at all.
    pub fn new_empty() -> (r: Self)
        ensures
            r@ == Map::<Seq<char>, Seq<char>>::empty(),
    {
        HotkeysConfig { mappings: Vec::new() }
    }

    /// The position of the pair named `name`, if any.
    fn position(&self, name: &str) -> (r: Option<usize>)
        ensures
            match r {
                Some(i) => i < self.mappings@.len() && self.mappings@[i as int].0@ == name@,
                None => forall|i: int| 0 <= i < self.mappings@.len() ==> (#[trigger] self.mappings@[i]).0@ != name@,
            },
    {
        let mut i: usize = 0;
        while i < self.mappings.len()
            invariant
                i <= self.mappings@.len(),
                forall|j: int| 0 <= j < i ==> (#[trigger] self.mappings@[j]).0@ != name@,
            decreases self.mappings@.len() - i,
        {
            if str_eq(self.mappings[i].0.as_str(), name) {
                return Some(i);
            }
            i += 1;
        }
        None
    }

    /// The shortcut of `name`, or the empty string when it has none.
    pub fn get(&self, name: &str) -> (r: String)
        ensures
            r@ == hotkey_of(self@, name@),
    {
        proof {
            use_type_invariant(self);
            lemma_pairs_to_map_contains(self.mappings@, name@);
        }
        match self.position(name) {
            Some(i) => {
                proof {
                    lemma_pairs_to_map_value(self.mappings@, i as int);
                }
                self.mappings[i].1.clone()
            },
            None => String::new(),
        }
    }

    /// Gives `name` the shortcut `shortcut`.
    pub fn update(&mut self, name: &str, shortcut: String)
        ensures
            final(self)@ == old(self)@.insert(name@, shortcut@),
    {
        proof {
            use_type_invariant(&*self);
        }
        let ghost old_m = self.mappings@;
        let pos = self.position(name);
        let mut m: Vec<(String, String)> = Vec::new();
        std::mem::swap(&mut m, &mut self.mappings);
        match pos {
            Some(i) => {
                let pair = (name.to_owned(), shortcut);
                proof {
                    lemma_pairs_to_map_update(old_m, i as int, pair);
                    assert(distinct_keys(old_m.update(i as int, pair))) by {
                        assert forall|a: int, b: int| 0 <= a < b < old_m.len()
                            implies (#[trigger] old_m.update(i as int, pair)[a]).0@ != (#[trigger] old_m.update(i as int, pair)[b]).0@ by {
                            assert(old_m[i as int].0@ == pair.0@);
                        }
                    }
                }
                m.set(i, pair);
            },
            None => {
                let pair = (name.to_owned(), shortcut);
                proof {
                    assert(old_m.push(pair).drop_last() =~= old_m);
                    assert(distinct_keys(old_m.push(pair))) by {
                        assert forall|a: int, b: int| 0 <= a < b < old_m.push(pair).len()
                            implies (#[trigger] old_m.push(pair)[a]).0@ != (#[trigger] old_m.push(pair)[b]).0@ by {
                            if b == old_m.len() {
                                assert(old_m.push(pair)[a] == old_m[a]);
                            } else {
                                assert(old_m.push(pair)[a] == old_m[a] && old_m.push(pair)[b] == old_m[b]);
                            }
                        }
                    }
                }
                m.push(pair);
            },
        }
        self.mappings = m;
    }

    /// Every name that has a shortcut, with its shortcut.
    pub fn entries(&self) -> (r: Vec<(String, String)>)
        ensures
            forall|i: int| 0 <= i < r@.len() ==> self@.contains_key((#[trigger] r@[i]).0@)
                && self@[r@[i].0@] == r@[i].1@,
            forall|k: Seq<char>| self@.contains_key(k) ==> exists|i: int| 0 <= i < r@.len() && (#[trigger] r@[i]).0@ == k,
            forall|a: int, b: int| 0 <= a < b < r@.len() ==> (#[trigger] r@[a]).0@ != (#[trigger] r@[b]).0@,
    {
        proof {
            use_type_invariant(self);
        }
        let mut r: Vec<(String, String)> = Vec::new();
        let mut i: usize = 0;
        while i < self.mappings.len()
            invariant
                i <= self.mappings@.len(),
                r@.len() == i,
                forall|j: int| 0 <= j < i ==> (#[trigger] r@[j]).0@ == self.mappings@[j].0@
                    && r@[j].1@ == self.mappings@[j].1@,
            decreases self.mappings@.len() - i,
        {
            r.push((self.mappings[i].0.clone(), self.mappings[i].1.clone()));
            i += 1;
        }
        proof {
            assert forall|i: int| 0 <= i < r@.len() implies self@.contains_key((#[trigger] r@[i]).0@)
                && self@[r@[i].0@] == r@[i].1@ by {
                lemma_pairs_to_map_value(self.mappings@, i);
            }
            assert forall|k: Seq<char>| self@.contains_key(k) implies exists|i: int| 0 <= i < r@.len() && (#[trigger] r@[i]).0@ == k by {
                lemma_pairs_to_map_contains(self.mappings@, k);
                let i = choose|i: int| 0 <= i < self.mappings@.len() && (#[trigger] self.mappings@[i]).0@ == k;
                assert(r@[i].0@ == k);
            }
        }
        r
    }

    /// The hotkey settings rows: the fixed actions first, then every formatter
    /// name of `all_formatter_names`, each with its shortcut.
    pub fn all_hotkeys(&self, all_formatter_names: &[String]) -> (r: Vec<(String, String)>)
        requires
            all_formatter_names@.len() + 5 <= usize::MAX,
        ensures
            r@.len() == 5 + all_formatter_names@.len(),
            forall|k: int| 0 <= k < 5 ==> (#[trigger] r@[k]).0@ == hotkey_actions()[k]
                && r@[k].1@ == hotkey_of(self@, hotkey_actions()[k]),
            forall|k: int| 0 <= k < all_formatter_names@.len() ==> (#[trigger] r@[k + 5]).0@ == all_formatter_names@[k]@
                && r@[k + 5].1@ == hotkey_of(self@, all_formatter_names@[k]@),
    {
        let actions: [&str; 5] = ["Save", "Open", "New File", "Undo", "Redo"];
        let mut result: Vec<(String, String)> = Vec::new();
        let mut k: usize = 0;
        while k < 5
            invariant
                k <= 5,
                actions@ == seq!["Save", "Open", "New File", "Undo", "Redo"],
                result@.len() == k,
                forall|j: int| 0 <= j < k ==> (#[trigger] result@[j]).0@ == hotkey_actions()[j]
                    && result@[j].1@ == hotkey_of(self@, hotkey_actions()[j]),
            decreases 5 - k,
        {
            let action: &str = actions[k];
            result.push((action.to_owned(), self.get(action)));
            k += 1;
        }
        let mut i: usize = 0;
        while i < all_formatter_names.len()
            invariant
                i <= all_formatter_names@.len(),
                all_formatter_names@.len() + 5 <= usize::MAX,
                result@.len() == 5 + i,
                forall|j: int| 0 <= j < 5 ==> (#[trigger] result@[j]).0@ == hotkey_actions()[j]
                    && result@[j].1@ == hotkey_of(self@, hotkey_actions()[j]),
                forall|j: int| 0 <= j < i ==> (#[trigger] result@[j + 5]).0@ == all_formatter_names@[j]@
                    && result@[j + 5].1@ == hotkey_of(self@, all_formatter_names@[j]@),
            decreases all_formatter_names@.len() - i,
        {
            let name = all_formatter_names[i].clone();
            let shortcut = self.get(all_formatter_names[i].as_str());
            result.push((name, shortcut));
            i += 1;
        }
        result
    }
}

impl Clone for HotkeysConfig {
    fn clone(&self) -> (r: Self)
        ensures
            r@ == self@,
    {
        proof {
            use_type_invariant(self);
        }
        let mut m: Vec<(String, String)> = Vec::new();
        let mut i: usize = 0;
        while i < self.mappings.len()
            invariant
                i <= self.mappings@.len(),
                m@.len() == i,
                forall|j: int| 0 <= j < i ==> (#[trigger] m@[j]).0@ == self.mappings@[j].0@
                    && m@[j].1@ == self.mappings@[j].1@,
            decreases self.mappings@.len() - i,
        {
            m.push((self.mappings[i].0.clone(), self.mappings[i].1.clone()));
            i += 1;
        }
        proof {
            lemma_pairs_to_map_same_views(m@, self.mappings@);
        }
        HotkeysConfig { mappings: m }
    }
}

impl Default for HotkeysConfig {
    fn default() -> (r: Self)
        ensures
            r@ == default_hotkeys(),
    {
        let mut h = HotkeysConfig::new_empty();
        h.update("Bold", "<Control>b".to_owned());
        h.update("Italics", "<Control>i".to_owned());
        h.update("Underscore", "<Control>u".to_owned());
        h.update("Strikethrough", "<Control>d".to_owned());
        h.update("Save", "<Control>s".to_owned());
        h.update("Open", "<Control>o".to_owned());
        h.update("New File", "<Control>n".to_owned());
        h.update("Undo", "<Control>z".to_owned());
        h.update("Redo", "<Control><Shift>z".to_owned());
        h
    }
}


/// How the editor and the preview look.
#[derive(Debug, Clone)]
pub struct AppearanceConfig {
    pub editor_font_family: String,
    pub editor_font_size: u32,
    pub editor_bg_color: String,
    pub editor_fg_color: String,
    pub menu_icon_size: u32,
    pub splitbar_color: String,
    pub splitbar_width: u32,
    pub word_wrap: bool,
    pub show_line_col: bool,
    pub show_line_numbers: bool,
    pub highlight_color: String,
    pub last_open_dir: String,
    pub local_only: bool,
}

/// `a` holds the default appearance.
pub open spec fn is_default_appearance(a: AppearanceConfig) -> bool {
    &&& a.editor_font_family@ == "Monospace"@
    &&& a.editor_font_size == 14
    &&& a.editor_bg_color@ == Seq::<char>::empty()
    &&& a.editor_fg_color@ == Seq::<char>::empty()
    &&& a.menu_icon_size == 16
    &&& a.splitbar_color@ == "#ccc"@
    &&& a.splitbar_width == 2
    &&& !a.word_wrap
    &&& a.show_line_col
    &&& a.show_line_numbers
    &&& a.highlight_color@ == Seq::<char>::empty()
    &&& a.last_open_dir@ == Seq::<char>::empty()
    &&& a.local_only
}

impl Default for AppearanceConfig {
    fn default() -> (r: Self)
        ensures
            is_default_appearance(r),
    {
        AppearanceConfig {
            editor_font_family: "Monospace".to_owned(),
            editor_font_size: 14,
            editor_bg_color: String::new(),
            editor_fg_color: String::new(),
            menu_icon_size: 16,
            splitbar_color: "#ccc".to_owned(),
            splitbar_width: 2,
            word_wrap: false,
            show_line_col: true,
            show_line_numbers: true,
            highlight_color: String::new(),
            last_open_dir: String::new(),
            local_only: true,
        }
    }
}

/// The whole configuration of the editor.
#[derive(Debug, Clone)]
pub struct Config {
    pub version: String,
    pub history_length: usize,
    pub formatters: FormatterConfig,
    pub hotkeys: HotkeysConfig,
    pub appearance: AppearanceConfig,
    pub recent_files: Vec<String>,
}

/// The views of a list of strings.
pub open spec fn string_views(v: Seq<String>) -> Seq<Seq<char>> {
    v.map_values(|s: String| s@)
}

/// `c` is the configuration the editor uses when none was saved.
pub open spec fn is_default_config(c: Config) -> bool {
    &&& c.version@ == "1.0.0"@
    &&& c.history_length == 100
    &&& is_default_formatters(c.formatters)
    &&& c.hotkeys@ == default_hotkeys()
    &&& is_default_appearance(c.appearance)
    &&& c.recent_files@.len() == 0
}

impl Default for Config {
    fn default() -> (r: Self)
        ensures
            is_default_config(r),
    {
        Config {
            version: "1.0.0".to_owned(),
            history_length: 100,
            formatters: FormatterConfig::default(),
            hotkeys: HotkeysConfig::default(),
            appearance: AppearanceConfig::default(),
            recent_files: Vec::new(),
        }
    }
}

/// The most recent files kept in the menu.
pub const MAX_RECENT_FILES: usize = 3;

/// `s` without the entries equal to `p`, in order.
pub open spec fn without(s: Seq<Seq<char>>, p: Seq<char>) -> Seq<Seq<char>>
    decreases s.len(),
{
    if s.len() == 0 {
        s
    } else if s.last() == p {
        without(s.drop_last(), p)
    } else {
        without(s.drop_last(), p).push(s.last())
    }
}

/// The recent-files list after opening `p`: `p` first, then the earlier
/// entries other than `p` in their order, at most three in all.
pub open spec fn recent_after_push(s: Seq<Seq<char>>, p: Seq<char>) -> Seq<Seq<char>> {
    let full = seq![p] + without(s, p);
    if full.len() > MAX_RECENT_FILES {
        full.take(MAX_RECENT_FILES as int)
    } else {
        full
    }
}

/// Records `path` as the most recently opened file.
pub fn push_recent_file(config: &mut Config, path: &str)
    ensures
        string_views(final(config).recent_files@) == recent_after_push(string_views(old(config).recent_files@), path@),
        final(config).version == old(config).version,
        final(config).history_length == old(config).history_length,
        final(config).formatters == old(config).formatters,
        final(config).hotkeys == old(config).hotkeys,
        final(config).appearance == old(config).appearance,
{
    let ghost old_views = string_views(config.recent_files@);
    let mut next: Vec<String> = Vec::new();
    next.push(path.to_owned());
    let mut i: usize = 0;
    while i < config.recent_files.len()
        invariant
            i <= config.recent_files@.len(),
            old_views == string_views(config.recent_files@),
            string_views(next@) == seq![path@] + without(old_views.take(i as int), path@),
        decreases config.recent_files@.len() - i,
    {
        proof {
            assert(old_views.take(i + 1).drop_last() =~= old_views.take(i as int));
            assert(old_views.take(i + 1).last() == config.recent_files@[i as int]@);
        }
        if !str_eq(config.recent_files[i].as_str(), path) {
            let ghost before = next@;
            next.push(config.recent_files[i].clone());
            proof {
                assert(string_views(next@) =~= string_views(before).push(config.recent_files@[i as int]@));
            }
        }
        i += 1;
    }
    proof {
        assert(old_views.take(old_views.len() as int) =~= old_views);
    }
    if next.len() > MAX_RECENT_FILES {
        next.truncate(MAX_RECENT_FILES);
        proof {
            assert(string_views(next@) =~= (seq![path@] + without(old_views, path@)).take(MAX_RECENT_FILES as int));
        }
    }
    config.recent_files = next;
}

/// The configuration that applies in a directory: a local configuration
/// wins over the user's global one, which wins over the defaults. The flag
/// says that both exist and their versions differ.
pub fn resolve_config(global: Option<Config>, local: Option<Config>) -> (r: (Config, bool))
    ensures
        local is Some ==> r.0 == local->0
            && r.1 == (global is Some && global->0.version@ != local->0.version@),
        local is None && global is Some ==> r.0 == global->0 && !r.1,
        local is None && global is None ==> is_default_config(r.0) && !r.1,
{
    match local {
        Some(config) => {
            let differs = match &global {
                Some(g) => !str_eq(config.version.as_str(), g.version.as_str()),
                None => false,
            };
            (config, differs)
        },
        None => match global {
            Some(g) => (g, false),
            None => (Config::default(), false),
        },
    }
}

/// Opening a file puts it first in the recent-files list, keeps it there
/// once, and keeps the list to at most `MAX_RECENT_FILES` entries.
pub proof fn lemma_recent_files_front(s: Seq<Seq<char>>, p: Seq<char>)
    ensures
        recent_after_push(s, p).len() >= 1,
        recent_after_push(s, p).len() <= MAX_RECENT_FILES,
        recent_after_push(s, p)[0] == p,
        forall|k: int| 1 <= k < recent_after_push(s, p).len() ==> #[trigger] recent_after_push(s, p)[k] != p,
{
    lemma_without_excludes(s, p);
    let full = seq![p] + without(s, p);
    assert forall|k: int| 1 <= k < full.len() implies #[trigger] full[k] != p by {
        assert(full[k] == without(s, p)[k - 1]);
    }
}

proof fn lemma_without_excludes(s: Seq<Seq<char>>, p: Seq<char>)
    ensures
        forall|k: int| 0 <= k < without(s, p).len() ==> #[trigger] without(s, p)[k] != p,
        without(s, p).len() <= s.len(),
    decreases s.len(),
{
    if s.len() > 0 {
        lemma_without_excludes(s.drop_last(), p);
    }
}

proof fn lemma_without_absent(s: Seq<Seq<char>>, p: Seq<char>)
    requires
        forall|k: int| 0 <= k < s.len() ==> #[trigger] s[k] != p,
    ensures
        without(s, p) == s,
    decreases s.len(),
{
    if s.len() > 0 {
        lemma_without_absent(s.drop_last(), p);
        assert(s.drop_last().push(s.last()) =~= s);
    }
}

/// Opening the file that was opened last leaves the recent-files list as it is.
pub proof fn lemma_recent_files_idempotent(s: Seq<Seq<char>>, p: Seq<char>)
    ensures
        recent_after_push(recent_after_push(s, p), p) == recent_after_push(s, p),
{
    let r = recent_after_push(s, p);
    lemma_recent_files_front(s, p);
    let tail = r.skip(1);
    assert forall|k: int| 0 <= k < tail.len() implies #[trigger] tail[k] != p by {
        assert(tail[k] == r[k + 1]);
    }
    lemma_without_absent(tail, p);
    lemma_without_of_front(r, p);
    assert(seq![p] + tail =~= r);
}

proof fn lemma_without_of_front(r: Seq<Seq<char>>, p: Seq<char>)
    requires
        r.len() >= 1,
        r[0] == p,
    ensures
        without(r, p) == without(r.skip(1), p),
    decreases r.len(),
{
    if r.len() == 1 {
        assert(r.drop_last() =~= Seq::<Seq<char>>::empty());
        assert(r.skip(1) =~= Seq::<Seq<char>>::empty());
    } else {
        lemma_without_of_front(r.drop_last(), p);
        assert(r.drop_last().skip(1) =~= r.skip(1).drop_last());
    }
}

/// The recent-files list never holds a file twice if it did not before.
pub proof fn lemma_recent_files_distinct(s: Seq<Seq<char>>, p: Seq<char>)
    requires
        forall|a: int, b: int| 0 <= a < b < s.len() ==> #[trigger] s[a] != #[trigger] s[b],
    ensures
        forall|a: int, b: int| 0 <= a < b < recent_after_push(s, p).len()
            ==> #[trigger] recent_after_push(s, p)[a] != #[trigger] recent_after_push(s, p)[b],
{
    lemma_without_distinct(s, p);
    lemma_without_excludes(s, p);
    let w = without(s, p);
    let full = seq![p] + w;
    assert forall|a: int, b: int| 0 <= a < b < full.len() implies #[trigger] full[a] != #[trigger] full[b] by {
        if a == 0 {
            assert(full[b] == w[b - 1]);
        } else {
            assert(full[a] == w[a - 1] && full[b] == w[b - 1]);
        }
    }
}

proof fn lemma_without_distinct(s: Seq<Seq<char>>, p: Seq<char>)
    requires
        forall|a: int, b: int| 0 <= a < b < s.len() ==> #[trigger] s[a] != #[trigger] s[b],
    ensures
        forall|a: int, b: int| 0 <= a < b < without(s, p).len() ==> #[trigger] without(s, p)[a] != #[trigger] without(s, p)[b],
        forall|k: int| 0 <= k < without(s, p).len() ==> s.contains(#[trigger] without(s, p)[k]),
    decreases s.len(),
{
    if s.len() > 0 {
        let d = s.drop_last();
        assert forall|a: int, b: int| 0 <= a < b < d.len() implies #[trigger] d[a] != #[trigger] d[b] by {
            assert(d[a] == s[a] && d[b] == s[b]);
        }
        lemma_without_distinct(d, p);
        let w = without(d, p);
        assert forall|k: int| 0 <= k < w.len() implies #[trigger] w[k] != s.last() by {
            let j = choose|j: int| 0 <= j < d.len() && d[j] == w[k];
            assert(s[j] == d[j]);
            assert(s[s.len() - 1] == s.last());
        }
        if s.last() != p {
            let w2 = w.push(s.last());
            assert forall|k: int| 0 <= k < w2.len() implies s.contains(#[trigger] w2[k]) by {
                if k < w.len() {
                    let j = choose|j: int| 0 <= j < d.len() && d[j] == w[k];
                    assert(s[j] == d[j]);
                } else {
                    assert(s[s.len() - 1] == w2[k]);
                }
            }
        } else {
            assert forall|k: int| 0 <= k < w.len() implies s.contains(#[trigger] w[k]) by {
                let j = choose|j: int| 0 <= j < d.len() && d[j] == w[k];
                assert(s[j] == d[j]);
            }
        }
    }
}

/// A shortcut read after it was set is the one that was set, and setting
/// one leaves the others as they were.
pub proof fn lemma_hotkey_read_after_write(m: Map<Seq<char>, Seq<char>>, name: Seq<char>, shortcut: Seq<char>, other: Seq<char>)
    requires
        other != name,
    ensures
        hotkey_of(m.insert(name, shortcut), name) == shortcut,
        hotkey_of(m.insert(name, shortcut), other) == hotkey_of(m, other),
{
}

/// Each formatter name is found at its own position: no two share a name.
proof fn lemma_formatter_positions()
    ensures
        forall|k: int| 0 <= k < 36 ==> formatter_index_from(#[trigger] formatter_names()[k], 0) == k,
{
    reveal_strlit("Italics");
    reveal_strlit("Bold");
    reveal_strlit("Underscore");
    reveal_strlit("Strikethrough");
    reveal_strlit("Paragraph");
    reveal_strlit("Preformatted");
    reveal_strlit("Font Size Change");
    reveal_strlit("Align Left");
    reveal_strlit("Align Right");
    reveal_strlit("Align Center");
    reveal_strlit("Align Justify");
    reveal_strlit("Superscript");
    reveal_strlit("Subscript");
    reveal_strlit("Code Block");
    reveal_strlit("Blockquote");
    reveal_strlit("Nested Blockquote");
    reveal_strlit("Escape Char");
    reveal_strlit("Font Color");
    reveal_strlit("Highlight");
    reveal_strlit("Table Start");
    reveal_strlit("Table Row");
    reveal_strlit("Table Cell");
    reveal_strlit("URL Link");
    reveal_strlit("Image Insert");
    reveal_strlit("Unordered List");
    reveal_strlit("Ordered List");
    reveal_strlit("Task List");
    reveal_strlit("Quote");
    reveal_strlit("Named Quote");
    reveal_strlit("Spoiler");
    reveal_strlit("Horizontal Rule");
    reveal_strlit("Heading Prefix");
    reveal_strlit("Heading ID");
    reveal_strlit("Footnote");
    reveal_strlit("Emoji Prefix");
    reveal_strlit("Collapse");
    reveal_with_fuel(formatter_index_from, 37);
    // The lengths tell most names apart; a character where they differ
    // tells apart the names of equal length.
    assert("Italics"@.len() == 7);
    assert("Bold"@.len() == 4);
    assert("Underscore"@.len() == 10);
    assert("Strikethrough"@.len() == 13);
    assert("Paragraph"@.len() == 9);
    assert("Preformatted"@.len() == 12);
    assert("Font Size Change"@.len() == 16);
    assert("Align Left"@.len() == 10);
    assert("Align Right"@.len() == 11);
    assert("Align Center"@.len() == 12);
    assert("Align Justify"@.len() == 13);
    assert("Superscript"@.len() == 11);
    assert("Subscript"@.len() == 9);
    assert("Code Block"@.len() == 10);
    assert("Blockquote"@.len() == 10);
    assert("Nested Blockquote"@.len() == 17);
    assert("Escape Char"@.len() == 11);
    assert("Font Color"@.len() == 10);
    assert("Highlight"@.len() == 9);
    assert("Table Start"@.len() == 11);
    assert("Table Row"@.len() == 9);
    assert("Table Cell"@.len() == 10);
    assert("URL Link"@.len() == 8);
    assert("Image Insert"@.len() == 12);
    assert("Unordered List"@.len() == 14);
    assert("Ordered List"@.len() == 12);
    assert("Task List"@.len() == 9);
    assert("Quote"@.len() == 5);
    assert("Named Quote"@.len() == 11);
    assert("Spoiler"@.len() == 7);
    assert("Horizontal Rule"@.len() == 15);
    assert("Heading Prefix"@.len() == 14);
    assert("Heading ID"@.len() == 10);
    assert("Footnote"@.len() == 8);
    assert("Emoji Prefix"@.len() == 12);
    assert("Collapse"@.len() == 8);
    assert("Italics"@[0] == 'I');
    assert("Underscore"@[0] == 'U');
    assert("Strikethrough"@[0] == 'S');
    assert("Paragraph"@[0] == 'P');
    assert("Preformatted"@[0] == 'P');
    assert("Align Left"@[0] == 'A');
    assert("Align Right"@[0] == 'A');
    assert("Align Center"@[0] == 'A');
    assert("Align Justify"@[0] == 'A');
    assert("Superscript"@[0] == 'S');
    assert("Subscript"@[0] == 'S');
    assert("Code Block"@[0] == 'C');
    assert("Blockquote"@[0] == 'B');
    assert("Escape Char"@[0] == 'E');
    assert("Font Color"@[0] == 'F');
    assert("Highlight"@[0] == 'H');
    assert("Table Start"@[0] == 'T');
    assert("Table Row"@[0] == 'T');
    assert("Table Row"@[2] == 'b');
    assert("Table Cell"@[0] == 'T');
    assert("URL Link"@[0] == 'U');
    assert("Image Insert"@[0] == 'I');
    assert("Unordered List"@[0] == 'U');
    assert("Ordered List"@[0] == 'O');
    assert("Task List"@[0] == 'T');
    assert("Task List"@[2] == 's');
    assert("Named Quote"@[0] == 'N');
    assert("Spoiler"@[0] == 'S');
    assert("Heading Prefix"@[0] == 'H');
    assert("Heading ID"@[0] == 'H');
    assert("Footnote"@[0] == 'F');
    assert("Emoji Prefix"@[0] == 'E');
    assert("Collapse"@[0] == 'C');
    assert(formatter_index_from(formatter_names()[0], 0) == 0);
    assert(formatter_index_from(formatter_names()[1], 0) == 1);
    assert(formatter_index_from(formatter_names()[2], 0) == 2);
    assert(formatter_index_from(formatter_names()[3], 0) == 3);
    assert(formatter_index_from(formatter_names()[4], 0) == 4);
    assert(formatter_index_from(formatter_names()[5], 0) == 5);
    assert(formatter_index_from(formatter_names()[6], 0) == 6);
    assert(formatter_index_from(formatter_names()[7], 0) == 7);
    assert(formatter_index_from(formatter_names()[8], 0) == 8);
    assert(formatter_index_from(formatter_names()[9], 0) == 9);
    assert(formatter_index_from(formatter_names()[10], 0) == 10);
    assert(formatter_index_from(formatter_names()[11], 0) == 11);
    assert(formatter_index_from(formatter_names()[12], 0) == 12);
    assert(formatter_index_from(formatter_names()[13], 0) == 13);
    assert(formatter_index_from(formatter_names()[14], 0) == 14);
    assert(formatter_index_from(formatter_names()[15], 0) == 15);
    assert(formatter_index_from(formatter_names()[16], 0) == 16);
    assert(formatter_index_from(formatter_names()[17], 0) == 17);
    assert(formatter_index_from(formatter_names()[18], 0) == 18);
    assert(formatter_index_from(formatter_names()[19], 0) == 19);
    assert(formatter_index_from(formatter_names()[20], 0) == 20);
    assert(formatter_index_from(formatter_names()[21], 0) == 21);
    assert(formatter_index_from(formatter_names()[22], 0) == 22);
    assert(formatter_index_from(formatter_names()[23], 0) == 23);
    assert(formatter_index_from(formatter_names()[24], 0) == 24);
    assert(formatter_index_from(formatter_names()[25], 0) == 25);
    assert(formatter_index_from(formatter_names()[26], 0) == 26);
    assert(formatter_index_from(formatter_names()[27], 0) == 27);
    assert(formatter_index_from(formatter_names()[28], 0) == 28);
    assert(formatter_index_from(formatter_names()[29], 0) == 29);
    assert(formatter_index_from(formatter_names()[30], 0) == 30);
    assert(formatter_index_from(formatter_names()[31], 0) == 31);
    assert(formatter_index_from(formatter_names()[32], 0) == 32);
    assert(formatter_index_from(formatter_names()[33], 0) == 33);
    assert(formatter_index_from(formatter_names()[34], 0) == 34);
    assert(formatter_index_from(formatter_names()[35], 0) == 35);
    assert forall|k: int| 0 <= k < 36 implies formatter_index_from(#[trigger] formatter_names()[k], 0) == k by {
        assert(k == 0 || k == 1 || k == 2 || k == 3 || k == 4 || k == 5 || k == 6 || k == 7 || k == 8 || k == 9 || k == 10 || k == 11 || k == 12 || k == 13 || k == 14 || k == 15 || k == 16 || k == 17 || k == 18 || k == 19 || k == 20 || k == 21 || k == 22 || k == 23 || k == 24 || k == 25 || k == 26 || k == 27 || k == 28 || k == 29 || k == 30 || k == 31 || k == 32 || k == 33 || k == 34 || k == 35);
    }
}

proof fn lemma_formatter_updates_prefix(es: Seq<FormatterEntry>, ups: Seq<(String, FormatterEntry)>, n: int)
    requires
        es.len() == 36,
        ups.len() == 36,
        0 <= n <= 36,
        forall|k: int| 0 <= k < 36 ==> (#[trigger] ups[k]).0@ == formatter_names()[k] && ups[k].1 == es[k],
    ensures
        apply_formatter_updates(es, ups.take(n)) == es,
    decreases n,
{
    if n > 0 {
        lemma_formatter_updates_prefix(es, ups, n - 1);
        assert(ups.take(n).drop_last() =~= ups.take(n - 1));
        lemma_formatter_positions();
        assert(formatter_index_from(formatter_names()[n - 1], 0) == n - 1);
        assert(es.update(n - 1, es[n - 1]) =~= es);
    }
}

/// Writing back the formatters exactly as `all_formatters` lists them
/// changes nothing.
pub proof fn lemma_formatter_roundtrip(c: FormatterConfig, ups: Seq<(String, FormatterEntry)>)
    requires
        ups.len() == FORMATTER_COUNT,
        forall|k: int| 0 <= k < FORMATTER_COUNT ==> (#[trigger] ups[k]).0@ == formatter_names()[k]
            && ups[k].1 == formatter_entries(c)[k],
    ensures
        apply_formatter_updates(formatter_entries(c), ups) == formatter_entries(c),
{
    lemma_formatter_updates_prefix(formatter_entries(c), ups, 36);
    assert(ups.take(36) =~= ups);
}

} // verus!
