use sfmde::markup::{plan_markup, MarkupPlan};

fn apply(text: &str, plan: &MarkupPlan) -> String {
    let mut chars: Vec<char> = text.chars().collect();
    for e in &plan.edits {
        let tail: Vec<char> = chars.split_off(e.at);
        chars.extend(e.insert.chars());
        chars.extend(tail.into_iter().skip(e.delete));
    }
    chars.into_iter().collect()
}

fn run(text: &str, start: usize, end: usize, symbol: &str) -> (String, Option<(usize, usize)>) {
    let plan = plan_markup(text, start, end, symbol);
    (apply(text, &plan), plan.selection)
}

#[test]
fn markup_inserts_at_cursor() {
    assert_eq!(run("hello", 2, 2, "**"), ("he**llo".to_string(), None));
}

#[test]
fn markup_wraps_selection() {
    assert_eq!(run("say hello now", 4, 9, "**"), ("say **hello** now".to_string(), Some((6, 11))));
}

#[test]
fn markup_unwraps_outer_symbols() {
    assert_eq!(run("say **hello** now", 6, 11, "**"), ("say hello now".to_string(), Some((4, 9))));
}

#[test]
fn markup_unwraps_inner_symbols() {
    assert_eq!(run("say **hello** now", 4, 13, "**"), ("say hello now".to_string(), Some((4, 9))));
}

#[test]
fn markup_wrap_then_unwrap_restores() {
    let (wrapped, sel) = run("a b c", 2, 3, "~~");
    assert_eq!(wrapped, "a ~~b~~ c");
    let (a, b) = sel.unwrap();
    assert_eq!(run(&wrapped, a, b, "~~"), ("a b c".to_string(), Some((2, 3))));
}

#[test]
fn markup_short_selection_of_symbol_is_wrapped() {
    // "**" alone is shorter than two symbols, so it is wrapped, not unwrapped.
    assert_eq!(run("x**y", 1, 3, "**"), ("x******y".to_string(), Some((3, 5))));
}

#[test]
fn markup_list_prefixes_each_line() {
    assert_eq!(run("one\ntwo\nthree", 1, 5, "- "), ("- one\n- two\nthree".to_string(), None));
}

#[test]
fn markup_list_removes_prefix_from_each_line() {
    assert_eq!(run("- one\n  - two\nthree", 0, 8, "- "), ("one\n  two\nthree".to_string(), None));
}

#[test]
fn markup_list_adds_when_one_line_lacks_it() {
    assert_eq!(run("- one\ntwo", 0, 7, "- "), ("- - one\n- two".to_string(), None));
}

#[test]
fn markup_list_toggle_roundtrip() {
    let text = "alpha\nbeta";
    let (on, _) = run(text, 0, 10, "1. ");
    assert_eq!(on, "1. alpha\n1. beta");
    let (off, _) = run(&on, 0, 16, "1. ");
    assert_eq!(off, text);
}

#[test]
fn markup_task_list_at_cursor_line() {
    assert_eq!(run("todo", 2, 2, "- [ ] "), ("- [ ] todo".to_string(), None));
}

#[test]
fn markup_non_ascii_selection() {
    assert_eq!(run("héllo wörld", 6, 11, "=="), ("héllo ==wörld==".to_string(), Some((8, 13))));
}

#[test]
fn markup_list_twice_on_same_lines_restores_text() {
    let text = "intro\none\ntwo\nend";
    let (on, _) = run(text, 7, 11, "- ");
    assert_eq!(on, "intro\n- one\n- two\nend");
    // Any selection from the first of those lines to the last.
    let (off, _) = run(&on, 8, 14, "- ");
    assert_eq!(off, text);
}
