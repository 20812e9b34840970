use sfmde::config::{AppearanceConfig, Config, FormatterConfig, FormatterEntry};
use sfmde::editor::{
    accelerators, appearance_css, is_smd_extension, may_close, preview_blocks, preview_body,
    tab_title, toolbar_layout, PREVIEW_WARNING,
};

#[test]
fn css_carries_the_editor_font() {
    let mut a = AppearanceConfig::default();
    a.editor_font_family = "Fira Code".to_string();
    a.editor_font_size = 13;
    let css = appearance_css(&a);
    assert!(css.contains("font-family: \"Fira Code\";"));
    assert!(css.contains("font-size: 13pt;"));
}

#[test]
fn css_omits_unset_colors() {
    let mut a = AppearanceConfig::default();
    a.editor_bg_color = String::new();
    a.editor_fg_color = String::new();
    let css = appearance_css(&a);
    assert!(!css.contains("background-color: ;"));
    assert!(!css.contains("            color:"));
}

#[test]
fn css_sets_colors_and_split_bar() {
    let mut a = AppearanceConfig::default();
    a.editor_bg_color = "#101010".to_string();
    a.editor_fg_color = "#eeeeee".to_string();
    a.menu_icon_size = 24;
    a.splitbar_color = "red".to_string();
    a.splitbar_width = 7;
    let css = appearance_css(&a);
    assert!(css.contains("background-color: #101010;"));
    assert!(css.contains("color: #eeeeee;"));
    assert!(css.contains("-gtk-icon-size: 24px;"));
    assert!(css.contains("background-color: red;\n            min-width: 7px;\n            min-height: 7px;"));
    assert!(css.starts_with("\n        textview {\n"));
    assert!(css.ends_with("padding-bottom: 0px;\n        }\n    "));
}

fn visible_count(f: &FormatterConfig) -> usize {
    f.all_formatters().iter().filter(|(_, e)| e.visible).count()
}

#[test]
fn toolbar_fits_buttons_to_width() {
    let f = FormatterConfig::default();
    let (primary, overflow) = toolbar_layout(&f, Some(200));
    assert_eq!(primary.len(), 3);
    assert_eq!(primary.len() + overflow.len(), visible_count(&f));
    assert_eq!(primary[0].name, "Italics");
    assert_eq!(primary[0].symbol, "*");
    assert_eq!(primary[1].name, "Bold");
    assert_eq!(primary[1].icon_name, "format-text-bold-symbolic");
}

#[test]
fn toolbar_defaults_to_800_pixels() {
    let f = FormatterConfig::default();
    let (primary, _) = toolbar_layout(&f, None);
    assert_eq!(primary.len(), std::cmp::min(17, visible_count(&f)));
}

#[test]
fn toolbar_always_shows_one_button() {
    let f = FormatterConfig::default();
    let (primary, overflow) = toolbar_layout(&f, Some(10));
    assert_eq!(primary.len(), 1);
    assert_eq!(overflow.len(), visible_count(&f) - 1);
    let (primary, _) = toolbar_layout(&f, Some(-300));
    assert_eq!(primary.len(), 1);
}

#[test]
fn toolbar_hides_invisible_formatters() {
    let mut f = FormatterConfig::default();
    f.italics = FormatterEntry::new("*", false, "x");
    let (primary, _) = toolbar_layout(&f, Some(2000));
    assert_eq!(primary[0].name, "Bold");
    assert!(primary.iter().all(|b| b.name != "Paragraph"));
}

#[test]
fn toolbar_wide_enough_has_no_overflow() {
    let f = FormatterConfig::default();
    let (primary, overflow) = toolbar_layout(&f, Some(5000));
    assert!(overflow.is_empty());
    assert_eq!(primary.len(), visible_count(&f));
}

#[test]
fn accelerators_list_actions_then_formatters() {
    let c = Config::default();
    let acc = accelerators(&c);
    assert_eq!(acc.len(), 41);
    assert_eq!(acc[0], ("app.save".to_string(), "<Control>s".to_string()));
    assert_eq!(acc[2], ("app.new".to_string(), "<Control>n".to_string()));
    assert_eq!(acc[4], ("app.redo".to_string(), "<Control><Shift>z".to_string()));
    assert_eq!(acc[5], ("app.italics".to_string(), "<Control>i".to_string()));
    assert_eq!(acc[6], ("app.bold".to_string(), "<Control>b".to_string()));
    assert_eq!(acc[11].0, "app.font-size-change");
    assert_eq!(acc[11].1, "");
}

#[test]
fn accelerators_follow_hotkey_changes() {
    let mut c = Config::default();
    c.hotkeys.update("Spoiler", "<Control>p".to_string());
    let acc = accelerators(&c);
    let spoiler = acc.iter().find(|(a, _)| a == "app.spoiler").unwrap();
    assert_eq!(spoiler.1, "<Control>p");
}

#[test]
fn local_only_refuses_remote_addresses() {
    assert!(preview_blocks("https://example.com/a.png", true));
    assert!(!preview_blocks("https://example.com/a.png", false));
    assert!(!preview_blocks("file:///home/a.png", true));
    assert!(!preview_blocks("about:blank", true));
    assert!(preview_blocks("file:", true));
    assert!(preview_blocks("", true));
}

#[test]
fn tab_title_names_the_file_or_untitled() {
    assert_eq!(tab_title(Some("notes.smd")), "notes.smd");
    assert_eq!(tab_title(None), "Untitled");
}

#[test]
fn only_smd_extension_is_previewed() {
    assert!(is_smd_extension(Some("smd")));
    assert!(!is_smd_extension(Some("md")));
    assert!(!is_smd_extension(Some("SMD")));
    assert!(!is_smd_extension(None));
}

#[test]
fn preview_body_warns_for_other_files() {
    assert_eq!(preview_body("<p>x</p>", true), "<p>x</p>");
    assert_eq!(
        preview_body("<p>x</p>", false),
        "<p class=\"warning\">&#9888; Preview only available for .smd files</p><p>x</p>"
    );
    assert!(preview_body("", false).starts_with(PREVIEW_WARNING));
}

#[test]
fn closing_asks_only_with_unsaved_changes() {
    assert!(may_close(&[]));
    assert!(may_close(&[false, false]));
    assert!(!may_close(&[false, true, false]));
    assert!(!may_close(&[true]));
}
