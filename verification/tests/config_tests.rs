use sfmde::config::{push_recent_file, resolve_config, Config, FormatterConfig, FormatterEntry, HotkeysConfig};

fn recents(c: &Config) -> Vec<&str> {
    c.recent_files.iter().map(|s| s.as_str()).collect()
}

#[test]
fn recent_file_goes_first() {
    let mut c = Config::default();
    push_recent_file(&mut c, "/a.smd");
    push_recent_file(&mut c, "/b.smd");
    assert_eq!(recents(&c), vec!["/b.smd", "/a.smd"]);
}

#[test]
fn recent_files_keep_three() {
    let mut c = Config::default();
    for p in ["/1", "/2", "/3", "/4"] {
        push_recent_file(&mut c, p);
    }
    assert_eq!(recents(&c), vec!["/4", "/3", "/2"]);
}

#[test]
fn recent_file_reopened_moves_to_front_once() {
    let mut c = Config::default();
    for p in ["/1", "/2", "/3", "/2"] {
        push_recent_file(&mut c, p);
    }
    assert_eq!(recents(&c), vec!["/2", "/3", "/1"]);
}

#[test]
fn recent_file_push_twice_is_push_once() {
    let mut c = Config::default();
    push_recent_file(&mut c, "/x");
    push_recent_file(&mut c, "/y");
    let once = c.recent_files.clone();
    push_recent_file(&mut c, "/y");
    assert_eq!(c.recent_files, once);
}

#[test]
fn recent_file_push_keeps_other_settings() {
    let mut c = Config::default();
    c.history_length = 7;
    push_recent_file(&mut c, "/x");
    assert_eq!(c.history_length, 7);
    assert_eq!(c.formatters.bold.symbol, "**");
}

#[test]
fn hotkey_read_after_write() {
    let mut h = HotkeysConfig::default();
    h.update("Bold", "<Control>k".to_string());
    assert_eq!(h.get("Bold"), "<Control>k");
    assert_eq!(h.get("Italics"), "<Control>i");
    assert_eq!(h.get("Nothing"), "");
    let mut e = HotkeysConfig::new_empty();
    e.update("Save", "<Alt>s".to_string());
    assert_eq!(e.get("Save"), "<Alt>s");
    assert_eq!(e.entries().len(), 1);
}

#[test]
fn formatters_round_trip_through_all_formatters() {
    let mut f = FormatterConfig::default();
    f.bold = FormatterEntry::new("!!", false, "b");
    let before = f.all_formatters();
    let mut g = f.clone();
    g.update_from_vec(before.clone());
    let after = g.all_formatters();
    assert_eq!(after.len(), before.len());
    for (x, y) in before.iter().zip(after.iter()) {
        assert_eq!(x.0, y.0);
        assert_eq!(x.1.symbol, y.1.symbol);
        assert_eq!(x.1.visible, y.1.visible);
        assert_eq!(x.1.enabled, y.1.enabled);
        assert_eq!(x.1.icon_name, y.1.icon_name);
    }
}

#[test]
fn formatters_update_by_name() {
    let mut f = FormatterConfig::default();
    f.update_from_vec(vec![
        ("Spoiler".to_string(), FormatterEntry::new("%%", true, "s")),
        ("No Such".to_string(), FormatterEntry::new("?", true, "n")),
    ]);
    assert_eq!(f.spoiler.symbol, "%%");
    assert_eq!(f.bold.symbol, "**");
}

#[test]
fn local_config_wins_over_global() {
    let mut global = Config::default();
    global.version = "1".to_string();
    global.history_length = 5;
    let mut local = Config::default();
    local.version = "2".to_string();
    local.history_length = 9;
    let (c, differs) = resolve_config(Some(global.clone()), Some(local));
    assert_eq!(c.history_length, 9);
    assert!(differs);
    let (c, differs) = resolve_config(Some(global), None);
    assert_eq!(c.history_length, 5);
    assert!(!differs);
    let (c, differs) = resolve_config(None, None);
    assert_eq!(c.history_length, 100);
    assert!(!differs);
}

#[test]
fn same_versions_do_not_differ() {
    let (_, differs) = resolve_config(Some(Config::default()), Some(Config::default()));
    assert!(!differs);
}
