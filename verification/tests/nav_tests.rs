use sfmde::nav::{record_navigation, NavState};

fn place(file: Option<&str>, offset: i32) -> NavState {
    NavState { file: file.map(|f| f.to_string()), cursor_offset: offset }
}

fn offsets(h: &[NavState]) -> Vec<i32> {
    h.iter().map(|s| s.cursor_offset).collect()
}

#[test]
fn nav_first_move_is_recorded() {
    let mut h = Vec::new();
    let mut i = 0;
    record_navigation(&mut h, &mut i, place(Some("a.smd"), 5), 100, false);
    assert_eq!(offsets(&h), vec![5]);
    assert_eq!(i, 0);
}

#[test]
fn nav_small_move_is_ignored() {
    let mut h = vec![place(Some("a.smd"), 5)];
    let mut i = 0;
    record_navigation(&mut h, &mut i, place(Some("a.smd"), 105), 100, false);
    assert_eq!(offsets(&h), vec![5]);
    record_navigation(&mut h, &mut i, place(Some("a.smd"), 106), 100, false);
    assert_eq!(offsets(&h), vec![5, 106]);
    assert_eq!(i, 1);
}

#[test]
fn nav_other_file_is_recorded() {
    let mut h = vec![place(Some("a.smd"), 5)];
    let mut i = 0;
    record_navigation(&mut h, &mut i, place(Some("b.smd"), 5), 100, false);
    assert_eq!(h.len(), 2);
    assert_eq!(h[1].file.as_deref(), Some("b.smd"));
    record_navigation(&mut h, &mut i, place(None, 5), 100, false);
    assert_eq!(h.len(), 3);
    assert_eq!(i, 2);
}

#[test]
fn nav_drops_forward_entries() {
    let mut h = vec![place(None, 0), place(None, 500), place(None, 1000)];
    let mut i = 0;
    record_navigation(&mut h, &mut i, place(None, 2000), 100, false);
    assert_eq!(offsets(&h), vec![0, 2000]);
    assert_eq!(i, 1);
}

#[test]
fn nav_keeps_within_limit() {
    let mut h = Vec::new();
    let mut i = 0;
    for k in 0..5 {
        record_navigation(&mut h, &mut i, place(None, k * 1000), 3, false);
    }
    assert_eq!(offsets(&h), vec![2000, 3000, 4000]);
    assert_eq!(i, 2);
}

#[test]
fn nav_nothing_recorded_while_navigating() {
    let mut h = vec![place(None, 0)];
    let mut i = 0;
    record_navigation(&mut h, &mut i, place(None, 5000), 100, true);
    assert_eq!(offsets(&h), vec![0]);
    assert_eq!(i, 0);
}

#[test]
fn nav_zero_limit_keeps_nothing() {
    let mut h = Vec::new();
    let mut i = 0;
    record_navigation(&mut h, &mut i, place(None, 7), 0, false);
    assert!(h.is_empty());
    assert_eq!(i, 0);
}
