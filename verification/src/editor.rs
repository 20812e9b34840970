//! Decisions of the editor window that do not depend on the toolkit: its
//! style sheet, which formatter buttons fit in the toolbar, the keyboard
//! shortcuts of its actions, tab titles, what the preview shows and loads,
//! and when closing needs to ask first.

use vstd::prelude::*;
use crate::config::{formatter_entries, formatter_names, hotkey_of, AppearanceConfig, Config, FormatterConfig, FORMATTER_COUNT};
use crate::parser::renderer::{decimal, push_decimal};
use crate::text::{push_char, push_str, str_eq};

verus! {

/// A fixed part of the editor style sheet.
pub const CSS_HEAD: &'static str = r##"
        textview {
            font-family: ""##;

/// A fixed part of the editor style sheet.
pub const CSS_AFTER_FAMILY: &'static str = r##"";
            font-size: "##;

/// A fixed part of the editor style sheet.
pub const CSS_AFTER_SIZE: &'static str = r##"pt;
            "##;

/// A fixed part of the editor style sheet.
pub const CSS_AFTER_BG: &'static str = r##"
            "##;

/// A fixed part of the editor style sheet.
pub const CSS_AFTER_FG: &'static str = r##"
        }
        button image {
            -gtk-icon-size: "##;

/// A fixed part of the editor style sheet.
pub const CSS_AFTER_ICON: &'static str = r##"px;
        }
        paned > separator {
            background-color: "##;

/// A fixed part of the editor style sheet.
pub const CSS_AFTER_SPLIT_COLOR: &'static str = r##";
            min-width: "##;

/// A fixed part of the editor style sheet.
pub const CSS_AFTER_SPLIT_WIDTH: &'static str = r##"px;
            min-height: "##;

/// A fixed part of the editor style sheet.
pub const CSS_END: &'static str = r##"px;
        }
        .dialog-border {
            outline: 2px solid rgba(0,0,0,0.35);
            outline-offset: -2px;
        }
        tabbar {
            min-height: 30px;
        }
        tabbar tab {
            min-height: 30px;
            padding-top: 0px;
            padding-bottom: 0px;
        }
    "##;

/// A CSS declaration `name: value;`, none for an empty value.
pub open spec fn optional_decl(name: Seq<char>, value: Seq<char>) -> Seq<char> {
    if value.len() == 0 { Seq::empty() } else { name + ": "@ + value + ";"@ }
}

/// The editor's style sheet for `a`: the editor font and colors, the icon
/// size of the buttons, and the color and width of the split bar.
pub open spec fn appearance_style(a: AppearanceConfig) -> Seq<char> {
    CSS_HEAD@ + a.editor_font_family@ + CSS_AFTER_FAMILY@ + decimal(a.editor_font_size as nat) + CSS_AFTER_SIZE@
        + optional_decl("background-color"@, a.editor_bg_color@) + CSS_AFTER_BG@
        + optional_decl("color"@, a.editor_fg_color@) + CSS_AFTER_FG@
        + decimal(a.menu_icon_size as nat) + CSS_AFTER_ICON@ + a.splitbar_color@ + CSS_AFTER_SPLIT_COLOR@
        + decimal(a.splitbar_width as nat) + CSS_AFTER_SPLIT_WIDTH@ + decimal(a.splitbar_width as nat) + CSS_END@
}

fn push_optional_decl(s: &mut String, name: &str, value: &str)
    ensures
        final(s)@ == old(s)@ + optional_decl(name@, value@),
{
    if !value.is_empty() {
        push_str(s, name);
        push_str(s, ": ");
        push_str(s, value);
        push_str(s, ";");
        assert(final(s)@ =~= old(s)@ + optional_decl(name@, value@));
    } else {
        assert(old(s)@ + optional_decl(name@, value@) =~= old(s)@);
    }
}

/// The editor's style sheet for the appearance settings `a`.
pub fn appearance_css(a: &AppearanceConfig) -> (r: String)
    ensures
        r@ == appearance_style(*a),
{
    let mut s = String::new();
    push_str(&mut s, CSS_HEAD);
    push_str(&mut s, a.editor_font_family.as_str());
    push_str(&mut s, CSS_AFTER_FAMILY);
    push_decimal(&mut s, a.editor_font_size as u64);
    push_str(&mut s, CSS_AFTER_SIZE);
    push_optional_decl(&mut s, "background-color", a.editor_bg_color.as_str());
    push_str(&mut s, CSS_AFTER_BG);
    push_optional_decl(&mut s, "color", a.editor_fg_color.as_str());
    push_str(&mut s, CSS_AFTER_FG);
    push_decimal(&mut s, a.menu_icon_size as u64);
    push_str(&mut s, CSS_AFTER_ICON);
    push_str(&mut s, a.splitbar_color.as_str());
    push_str(&mut s, CSS_AFTER_SPLIT_COLOR);
    push_decimal(&mut s, a.splitbar_width as u64);
    push_str(&mut s, CSS_AFTER_SPLIT_WIDTH);
    push_decimal(&mut s, a.splitbar_width as u64);
    push_str(&mut s, CSS_END);
    assert(s@ =~= appearance_style(*a));
    s
}

/// A formatter button of the toolbar: its tooltip, the symbol it inserts,
/// and its icon.
pub struct ToolbarButton {
    pub name: String,
    pub symbol: String,
    pub icon_name: String,
}

/// A button as plain values.
pub struct ButtonInfo {
    pub name: Seq<char>,
    pub symbol: Seq<char>,
    pub icon_name: Seq<char>,
}

impl View for ToolbarButton {
    type V = ButtonInfo;

    open spec fn view(&self) -> ButtonInfo {
        ButtonInfo { name: self.name@, symbol: self.symbol@, icon_name: self.icon_name@ }
    }
}

pub open spec fn button_views(b: Seq<ToolbarButton>) -> Seq<ButtonInfo> {
    b.map_values(|x: ToolbarButton| x@)
}

/// The buttons of the formatters shown in the toolbar, in formatter order,
/// among the first `n` formatters.
pub open spec fn visible_buttons(c: FormatterConfig, n: int) -> Seq<ButtonInfo>
    decreases n,
{
    if n <= 0 {
        Seq::empty()
    } else {
        let e = formatter_entries(c)[n - 1];
        let before = visible_buttons(c, n - 1);
        if e.visible {
            before.push(ButtonInfo { name: formatter_names()[n - 1], symbol: e.symbol@, icon_name: e.icon_name@ })
        } else {
            before
        }
    }
}

/// How many buttons fit before the overflow menu in a toolbar `width`
/// pixels wide (800 when unknown): a button takes about 42 pixels, 50 are
/// kept free, and at least one button always shows.
pub open spec fn primary_count(width: Option<i32>) -> int {
    let w: int = match width {
        Some(w) => w as int,
        None => 800,
    };
    if w - 50 < 42 { 1 } else { (w - 50) / 42 }
}

/// How many formatter buttons fit before the overflow menu of a toolbar
/// `width` pixels wide (800 when unknown).
pub fn toolbar_capacity(width: Option<i32>) -> (n: usize)
    requires
        width matches Some(w) ==> w >= i32::MIN + 50,
    ensures
        n == primary_count(width),
{
    let w: i32 = match width {
        Some(w) => w,
        None => 800,
    };
    if w - 50 < 42 { 1 } else { ((w - 50) / 42) as usize }
}

/// The toolbar's buttons and those of its overflow menu.
pub open spec fn toolbar_split(c: FormatterConfig, width: Option<i32>) -> (Seq<ButtonInfo>, Seq<ButtonInfo>) {
    let all = visible_buttons(c, FORMATTER_COUNT as int);
    let n = primary_count(width);
    if all.len() > n { (all.take(n), all.skip(n)) } else { (all, Seq::empty()) }
}

/// The formatter buttons of a toolbar `width` pixels wide: those that fit,
/// and those that go into its overflow menu.
pub fn toolbar_layout(formatters: &FormatterConfig, width: Option<i32>) -> (r: (Vec<ToolbarButton>, Vec<ToolbarButton>))
    requires
        width matches Some(w) ==> w >= i32::MIN + 50,
    ensures
        (button_views(r.0@), button_views(r.1@)) == toolbar_split(*formatters, width),
{
    let all = formatters.all_formatters();
    let mut visible: Vec<ToolbarButton> = Vec::new();
    let mut k: usize = 0;
    while k < all.len()
        invariant
            k <= all@.len(),
            all@.len() == FORMATTER_COUNT,
            forall|j: int| 0 <= j < FORMATTER_COUNT ==> (#[trigger] all@[j]).0@ == formatter_names()[j]
                && all@[j].1 == formatter_entries(*formatters)[j],
            button_views(visible@) == visible_buttons(*formatters, k as int),
        decreases all@.len() - k,
    {
        let (name, entry) = (&all[k].0, &all[k].1);
        if entry.visible {
            let ghost before = visible@;
            visible.push(ToolbarButton { name: name.clone(), symbol: entry.symbol.clone(), icon_name: entry.icon_name.clone() });
            assert(button_views(visible@) =~= button_views(before).push(visible@.last()@));
        }
        k += 1;
    }
    let count = toolbar_capacity(width);
    if visible.len() > count {
        let ghost all_v = button_views(visible@);
        let overflow = visible.split_off(count);
        assert(button_views(visible@) =~= all_v.take(count as int));
        assert(button_views(overflow@) =~= all_v.skip(count as int));
        (visible, overflow)
    } else {
        let overflow: Vec<ToolbarButton> = Vec::new();
        assert(button_views(overflow@) =~= Seq::<ButtonInfo>::empty());
        (visible, overflow)
    }
}

/// A character of a formatter's action name: ASCII letters in lower case,
/// spaces as dashes.
pub open spec fn action_char(c: char) -> char {
    if 'A' <= c <= 'Z' {
        ((c as u32) + 32) as char
    } else if c == ' ' {
        '-'
    } else {
        c
    }
}

/// The application action of the formatter called `name`: `app.` and the
/// name in lower case with dashes for spaces (the formatter names are ASCII).
pub open spec fn formatter_action(name: Seq<char>) -> Seq<char> {
    "app."@ + name.map_values(|c: char| action_char(c))
}

/// Each action of the editor with its keyboard shortcut: saving, opening,
/// a new file, undo and redo, then every formatter in order.
pub open spec fn accelerator_table(c: Config) -> Seq<(Seq<char>, Seq<char>)> {
    seq![
        ("app.save"@, hotkey_of(c.hotkeys@, "Save"@)),
        ("app.open"@, hotkey_of(c.hotkeys@, "Open"@)),
        ("app.new"@, hotkey_of(c.hotkeys@, "New File"@)),
        ("app.undo"@, hotkey_of(c.hotkeys@, "Undo"@)),
        ("app.redo"@, hotkey_of(c.hotkeys@, "Redo"@)),
    ] + Seq::new(FORMATTER_COUNT as nat, |k: int| (formatter_action(formatter_names()[k]), hotkey_of(c.hotkeys@, formatter_names()[k])))
}

fn lower_action_char(c: char) -> (r: char)
    ensures
        r == action_char(c),
{
    if 'A' <= c && c <= 'Z' {
        let code: u8 = (c as u8) + 32;
        code as char
    } else if c == ' ' {
        '-'
    } else {
        c
    }
}

fn action_of(name: &str) -> (r: String)
    ensures
        r@ == formatter_action(name@),
{
    let chars = crate::text::to_chars(name);
    let mut r = String::new();
    push_str(&mut r, "app.");
    let mut k: usize = 0;
    while k < chars.len()
        invariant
            k <= chars@.len(),
            chars@ == name@,
            r@ == "app."@ + name@.take(k as int).map_values(|c: char| action_char(c)),
        decreases chars@.len() - k,
    {
        let c = lower_action_char(chars[k]);
        push_char(&mut r, c);
        assert(name@.take(k + 1).map_values(|c: char| action_char(c)) =~= name@.take(k as int).map_values(|c: char| action_char(c)).push(c));
        k += 1;
    }
    assert(name@.take(chars@.len() as int) =~= name@);
    r
}

fn pair_of(action: &str, c: &Config, name: &str) -> (r: (String, String))
    ensures
        r.0@ == action@,
        r.1@ == hotkey_of(c.hotkeys@, name@),
{
    (action.to_owned(), c.hotkeys.get(name))
}

/// The keyboard shortcut of every action of the editor, as the action's
/// name and the shortcut (empty where none is set).
pub fn accelerators(config: &Config) -> (r: Vec<(String, String)>)
    ensures
        r@.len() == 5 + FORMATTER_COUNT,
        forall|k: int| 0 <= k < r@.len() ==> (#[trigger] r@[k]).0@ == accelerator_table(*config)[k].0
            && r@[k].1@ == accelerator_table(*config)[k].1,
{
    let mut r: Vec<(String, String)> = Vec::new();
    r.push(pair_of("app.save", config, "Save"));
    r.push(pair_of("app.open", config, "Open"));
    r.push(pair_of("app.new", config, "New File"));
    r.push(pair_of("app.undo", config, "Undo"));
    r.push(pair_of("app.redo", config, "Redo"));
    let ghost table = accelerator_table(*config);
    let all = config.formatters.all_formatters();
    let mut k: usize = 0;
    while k < all.len()
        invariant
            k <= all@.len(),
            all@.len() == FORMATTER_COUNT,
            forall|j: int| 0 <= j < FORMATTER_COUNT ==> (#[trigger] all@[j]).0@ == formatter_names()[j],
            table == accelerator_table(*config),
            r@.len() == 5 + k,
            forall|j: int| 0 <= j < r@.len() ==> (#[trigger] r@[j]).0@ == table[j].0 && r@[j].1@ == table[j].1,
        decreases all@.len() - k,
    {
        let name = all[k].0.as_str();
        let action = action_of(name);
        r.push((action, config.hotkeys.get(name)));
        k += 1;
    }
    r
}

/// `s` starts with `p`.
pub open spec fn has_prefix(s: Seq<char>, p: Seq<char>) -> bool {
    p.len() <= s.len() && s.take(p.len() as int) == p
}

/// A preview request that leaves the computer: neither a `file://` nor an
/// `about:` address.
pub open spec fn is_external_uri(uri: Seq<char>) -> bool {
    !has_prefix(uri, "file://"@) && !has_prefix(uri, "about:"@)
}

fn starts_with(s: &str, p: &str) -> (r: bool)
    ensures
        r == has_prefix(s@, p@),
{
    let sc = crate::text::to_chars(s);
    let pc = crate::text::to_chars(p);
    if pc.len() > sc.len() {
        return false;
    }
    let mut k: usize = 0;
    while k < pc.len()
        invariant
            k <= pc@.len() <= sc@.len(),
            sc@ == s@,
            pc@ == p@,
            forall|j: int| 0 <= j < k ==> sc@[j] == pc@[j],
        decreases pc@.len() - k,
    {
        if sc[k] != pc[k] {
            assert(s@.take(p@.len() as int)[k as int] != p@[k as int]);
            return false;
        }
        k += 1;
    }
    assert(s@.take(p@.len() as int) =~= p@);
    true
}

/// Whether the preview must refuse to load `uri`: in local-only mode, every
/// address that is not a local file (or `about:`) is refused.
pub fn preview_blocks(uri: &str, local_only: bool) -> (r: bool)
    ensures
        r == local_only_refuses(uri@, local_only),
{
    local_only && !starts_with(uri, "file://") && !starts_with(uri, "about:")
}

/// In local-only mode nothing outside the computer loads in the preview,
/// and local files always do.
pub proof fn lemma_local_only_blocks_remote(uri: Seq<char>)
    ensures
        is_external_uri(uri) ==> (local_only_refuses(uri, true)),
        has_prefix(uri, "file://"@) ==> !local_only_refuses(uri, true),
        !local_only_refuses(uri, false),
{
}

/// The line shown above the preview of a file that is not a `.smd` file.
pub const PREVIEW_WARNING: &'static str = r#"<p class="warning">&#9888; Preview only available for .smd files</p>"#;

/// The title of a tab: the file's name, or "Untitled" for a buffer with no
/// file (or a name that is not valid text).
pub fn tab_title(file_name: Option<&str>) -> (r: String)
    ensures
        r@ == match file_name {
            Some(n) => n@,
            None => "Untitled"@,
        },
{
    match file_name {
        Some(n) => n.to_owned(),
        None => "Untitled".to_owned(),
    }
}

/// Whether a file with this extension is a `.smd` document, the only kind
/// the preview formats.
pub fn is_smd_extension(extension: Option<&str>) -> (r: bool)
    ensures
        r == match extension {
            Some(e) => e@ == "smd"@,
            None => false,
        },
{
    match extension {
        Some(e) => str_eq(e, "smd"),
        None => false,
    }
}

/// The body the preview shows: the rendered document, preceded by a warning
/// when the file is not a `.smd` file.
pub fn preview_body(rendered: &str, is_smd: bool) -> (r: String)
    ensures
        r@ == if is_smd { rendered@ } else { PREVIEW_WARNING@ + rendered@ },
{
    if is_smd {
        rendered.to_owned()
    } else {
        let mut body = PREVIEW_WARNING.to_owned();
        push_str(&mut body, rendered);
        body
    }
}

/// Whether the window or a set of tabs may close without asking: only when
/// none of them holds unsaved changes.
pub fn may_close(dirty: &[bool]) -> (r: bool)
    ensures
        r == forall|i: int| 0 <= i < dirty@.len() ==> !dirty@[i],
{
    let mut k: usize = 0;
    while k < dirty.len()
        invariant
            k <= dirty@.len(),
            forall|i: int| 0 <= i < k ==> !dirty@[i],
        decreases dirty@.len() - k,
    {
        if dirty[k] {
            return false;
        }
        k += 1;
    }
    true
}

/// The decision `preview_blocks` makes.
pub open spec fn local_only_refuses(uri: Seq<char>, local_only: bool) -> bool {
    local_only && is_external_uri(uri)
}

} // verus!
