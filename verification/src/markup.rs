//! What a toolbar formatter does to the text: the edits that insert,
//! wrap or unwrap its symbol around the selection, or put it in front of
//! (or take it from) each selected line for list symbols.

use vstd::prelude::*;
use crate::text::{push_char, to_chars};

verus! {

/// A whitespace character as Rust's `char::is_whitespace` defines it: the
/// Unicode `White_Space` property.
pub open spec fn is_whitespace(c: char) -> bool {
    ||| '\u{9}' <= c <= '\u{d}'
    ||| c == ' '
    ||| c == '\u{85}'
    ||| c == '\u{a0}'
    ||| c == '\u{1680}'
    ||| '\u{2000}' <= c <= '\u{200a}'
    ||| c == '\u{2028}'
    ||| c == '\u{2029}'
    ||| c == '\u{202f}'
    ||| c == '\u{205f}'
    ||| c == '\u{3000}'
}

/// `s` without its leading whitespace.
pub open spec fn trim_start(s: Seq<char>) -> Seq<char>
    decreases s.len(),
{
    if s.len() > 0 && is_whitespace(s[0]) {
        trim_start(s.skip(1))
    } else {
        s
    }
}

/// `p` occurs in `s` at `i`.
pub open spec fn occurs_at(s: Seq<char>, i: int, p: Seq<char>) -> bool {
    0 <= i && i + p.len() <= s.len() && s.subrange(i, i + p.len()) == p
}

/// The first place at or after `i` where `p` occurs in `s`, or -1.
pub open spec fn first_occurrence(s: Seq<char>, p: Seq<char>, i: int) -> int
    decreases s.len() + 1 - i,
{
    if i < 0 || i > s.len() {
        -1
    } else if occurs_at(s, i, p) {
        i
    } else {
        first_occurrence(s, p, i + 1)
    }
}

/// `line` without the first occurrence of `p`, if there is one.
pub open spec fn remove_first(line: Seq<char>, p: Seq<char>) -> Seq<char> {
    let k = first_occurrence(line, p, 0);
    if k < 0 { line } else { line.take(k) + line.skip(k + p.len()) }
}

/// The end of the line of `s` that holds position `i`: the next newline at
/// or after `i`, or the end of `s`.
pub open spec fn line_end(s: Seq<char>, i: int) -> int
    decreases s.len() - i,
{
    if i < 0 || i >= s.len() || s[i] == '\n' {
        if i < 0 { 0 } else if i > s.len() { s.len() as int } else { i }
    } else {
        line_end(s, i + 1)
    }
}

/// The start of the line of `s` that holds position `i`: just after the
/// last newline before `i`, or 0.
pub open spec fn line_start(s: Seq<char>, i: int) -> int
    decreases i,
{
    if i <= 0 || i > s.len() {
        if i <= 0 { 0 } else { line_start(s, s.len() as int) }
    } else if s[i - 1] == '\n' {
        i
    } else {
        line_start(s, i - 1)
    }
}

pub proof fn lemma_line_end_bounds(s: Seq<char>, i: int)
    requires
        0 <= i <= s.len(),
    ensures
        i <= line_end(s, i) <= s.len(),
        line_end(s, i) < s.len() ==> s[line_end(s, i)] == '\n',
        forall|j: int| i <= j < line_end(s, i) ==> s[j] != '\n',
    decreases s.len() - i,
{
    if i < s.len() && s[i] != '\n' {
        lemma_line_end_bounds(s, i + 1);
    }
}

/// Every line of `r` starts with `p` after its leading whitespace.
pub open spec fn all_lines_prefixed(r: Seq<char>, p: Seq<char>) -> bool
    decreases r.len(),
{
    let k = line_end(r, 0);
    proof {
        lemma_line_end_bounds(r, 0);
    }
    let line = r.take(k);
    let t = trim_start(line);
    let here = p.len() <= t.len() && t.take(p.len() as int) == p;
    if k >= r.len() { here } else { here && all_lines_prefixed(r.skip(k + 1), p) }
}

/// Each line of `r` with `p` in front.
pub open spec fn prefix_lines(r: Seq<char>, p: Seq<char>) -> Seq<char>
    decreases r.len(),
{
    let k = line_end(r, 0);
    proof {
        lemma_line_end_bounds(r, 0);
    }
    if k >= r.len() { p + r } else { p + r.take(k) + seq!['\n'] + prefix_lines(r.skip(k + 1), p) }
}

/// Each line of `r` without the first occurrence of `p`.
pub open spec fn unprefix_lines(r: Seq<char>, p: Seq<char>) -> Seq<char>
    decreases r.len(),
{
    let k = line_end(r, 0);
    proof {
        lemma_line_end_bounds(r, 0);
    }
    if k >= r.len() {
        remove_first(r, p)
    } else {
        remove_first(r.take(k), p) + seq!['\n'] + unprefix_lines(r.skip(k + 1), p)
    }
}

/// An edit of the text: at character `at`, `delete` characters go and
/// `insert` takes their place.
pub struct TextEdit {
    pub at: usize,
    pub delete: usize,
    pub insert: String,
}

/// An edit as plain values.
pub struct EditInfo {
    pub at: int,
    pub delete: int,
    pub insert: Seq<char>,
}

impl View for TextEdit {
    type V = EditInfo;

    open spec fn view(&self) -> EditInfo {
        EditInfo { at: self.at as int, delete: self.delete as int, insert: self.insert@ }
    }
}

pub open spec fn edit_views(es: Seq<TextEdit>) -> Seq<EditInfo> {
    es.map_values(|e: TextEdit| e@)
}

/// `text` after the edit `e`.
pub open spec fn apply_edit(text: Seq<char>, e: EditInfo) -> Seq<char> {
    text.take(e.at) + e.insert + text.skip(e.at + e.delete)
}

/// `text` after the edits, in order.
pub open spec fn apply_edits(text: Seq<char>, es: Seq<EditInfo>) -> Seq<char>
    decreases es.len(),
{
    if es.len() == 0 {
        text
    } else {
        apply_edit(apply_edits(text, es.drop_last()), es.last())
    }
}

/// Each edit lies within the text as the edits before it left it.
pub open spec fn edits_fit(text: Seq<char>, es: Seq<EditInfo>) -> bool
    decreases es.len(),
{
    if es.len() == 0 {
        true
    } else {
        &&& edits_fit(text, es.drop_last())
        &&& 0 <= es.last().at
        &&& 0 <= es.last().delete
        &&& es.last().at + es.last().delete <= apply_edits(text, es.drop_last()).len()
    }
}

/// A list symbol, such as `- `, `1. ` or `- [ ] `: one that ends with a space.
/// It applies to whole lines.
pub open spec fn is_list_symbol(symbol: Seq<char>) -> bool {
    symbol.len() > 0 && symbol.last() == ' '
}

/// The text and the selection after a formatter with `symbol` is applied to
/// the selection `start..end` of `text` (an empty one is the cursor); no
/// selection means the buffer keeps its own.
/// - A list symbol goes in front of every line the selection touches, or,
///   if each of them already starts with it after its indentation, comes
///   off each of them.
/// - At the cursor, the symbol is inserted.
/// - A selection with the symbol right outside it on both sides loses those.
/// - A selection that starts and ends with the symbol, at least twice as
///   long as it, loses them.
/// - Any other selection is wrapped in the symbol, and stays selected.
pub open spec fn markup_outcome(text: Seq<char>, start: int, end: int, symbol: Seq<char>) -> (Seq<char>, Option<(int, int)>) {
    let n = symbol.len() as int;
    if is_list_symbol(symbol) {
        let a = line_start(text, start);
        let b = line_end(text, end);
        let r = text.subrange(a, b);
        let lines = if all_lines_prefixed(r, symbol) { unprefix_lines(r, symbol) } else { prefix_lines(r, symbol) };
        (text.take(a) + lines + text.skip(b), None)
    } else if start == end {
        (text.take(start) + symbol + text.skip(start), None)
    } else {
        let sel = text.subrange(start, end);
        if start >= n && end + n <= text.len() && text.subrange(start - n, start) == symbol
            && text.subrange(end, end + n) == symbol {
            (text.take(start - n) + sel + text.skip(end + n), Some((start - n, end - n)))
        } else if sel.len() >= 2 * n && sel.take(n) == symbol && sel.skip(sel.len() - n) == symbol {
            let inner = sel.subrange(n, sel.len() - n);
            (text.take(start) + inner + text.skip(end), Some((start, start + inner.len())))
        } else {
            (text.take(start) + symbol + sel + symbol + text.skip(end), Some((start + n, end + n)))
        }
    }
}

proof fn lemma_line_end_skip(r: Seq<char>, i: int, j: int)
    requires
        0 <= i,
        0 <= j,
        i + j <= r.len(),
    ensures
        line_end(r.skip(i), j) == line_end(r, i + j) - i,
    decreases r.len() - (i + j),
{
    let t = r.skip(i);
    if i + j < r.len() && r[i + j] != '\n' {
        assert(t[j] == r[i + j]);
        lemma_line_end_skip(r, i, j + 1);
    } else if i + j < r.len() {
        assert(t[j] == r[i + j]);
    }
}

fn is_whitespace_char(c: char) -> (r: bool)
    ensures
        r == is_whitespace(c),
{
    ('\u{9}' <= c && c <= '\u{d}') || c == ' ' || c == '\u{85}' || c == '\u{a0}' || c == '\u{1680}'
        || ('\u{2000}' <= c && c <= '\u{200a}') || c == '\u{2028}' || c == '\u{2029}' || c == '\u{202f}'
        || c == '\u{205f}' || c == '\u{3000}'
}

pub(crate) fn line_start_at(chars: &Vec<char>, i: usize) -> (r: usize)
    requires
        i <= chars@.len(),
    ensures
        r == line_start(chars@, i as int),
        r <= i,
{
    let mut j = i;
    while j > 0 && chars[j - 1] != '\n'
        invariant
            j <= i <= chars@.len(),
            line_start(chars@, i as int) == line_start(chars@, j as int),
        decreases j,
    {
        j -= 1;
    }
    j
}

fn line_end_at(chars: &Vec<char>, i: usize) -> (r: usize)
    requires
        i <= chars@.len(),
    ensures
        r == line_end(chars@, i as int),
        i <= r <= chars@.len(),
{
    let mut j = i;
    while j < chars.len() && chars[j] != '\n'
        invariant
            i <= j <= chars@.len(),
            line_end(chars@, i as int) == line_end(chars@, j as int),
        decreases chars@.len() - j,
    {
        j += 1;
    }
    j
}

/// Whether `sym` stands in `chars` at `at`.
fn occurs_in(chars: &Vec<char>, at: usize, to: usize, sym: &Vec<char>) -> (r: bool)
    requires
        at <= to <= chars@.len(),
    ensures
        r == (at + sym@.len() <= to && chars@.subrange(at as int, at + sym@.len()) == sym@),
{
    if sym.len() > to - at {
        return false;
    }
    let mut j: usize = 0;
    while j < sym.len()
        invariant
            j <= sym@.len(),
            at + sym@.len() <= to <= chars@.len(),
            forall|k: int| 0 <= k < j ==> chars@[at + k] == sym@[k],
        decreases sym@.len() - j,
    {
        if chars[at + j] != sym[j] {
            assert(chars@.subrange(at as int, at + sym@.len())[j as int] != sym@[j as int]);
            return false;
        }
        j += 1;
    }
    assert(chars@.subrange(at as int, at + sym@.len()) =~= sym@);
    true
}

/// Whether the line `chars[from..to]` starts with `sym` after its leading whitespace.
fn line_has_prefix(chars: &Vec<char>, from: usize, to: usize, sym: &Vec<char>) -> (r: bool)
    requires
        from <= to <= chars@.len(),
    ensures
        ({
            let t = trim_start(chars@.subrange(from as int, to as int));
            r == (sym@.len() <= t.len() && t.take(sym@.len() as int) == sym@)
        }),
{
    let mut w = from;
    while w < to && is_whitespace_char(chars[w])
        invariant
            from <= w <= to <= chars@.len(),
            trim_start(chars@.subrange(from as int, to as int)) == trim_start(chars@.subrange(w as int, to as int)),
        decreases to - w,
    {
        assert(chars@.subrange(w as int, to as int).skip(1) =~= chars@.subrange(w + 1, to as int));
        w += 1;
    }
    let ghost t = chars@.subrange(w as int, to as int);
    assert(trim_start(t) == t);
    let r = occurs_in(chars, w, to, sym);
    proof {
        if w + sym@.len() <= to {
            assert(t.take(sym@.len() as int) =~= chars@.subrange(w as int, w + sym@.len()));
        }
    }
    r
}

/// The line `chars[from..to]` without the first occurrence of `sym`.
fn remove_first_in(chars: &Vec<char>, from: usize, to: usize, sym: &Vec<char>) -> (r: String)
    requires
        from <= to <= chars@.len(),
    ensures
        r@ == remove_first(chars@.subrange(from as int, to as int), sym@),
{
    let ghost line = chars@.subrange(from as int, to as int);
    let mut i = from;
    let mut found = false;
    let mut done = false;
    while !done
        invariant
            from <= i <= to <= chars@.len(),
            line == chars@.subrange(from as int, to as int),
            !done ==> !found && first_occurrence(line, sym@, 0) == first_occurrence(line, sym@, i - from),
            done && found ==> first_occurrence(line, sym@, 0) == i - from && i + sym@.len() <= to,
            done && !found ==> first_occurrence(line, sym@, 0) == -1,
        decreases (to - i) * 2 + (if done { 0int } else { 1int }),
    {
        let here = occurs_in(chars, i, to, sym);
        proof {
            if i + sym@.len() <= to {
                assert(line.subrange(i - from, i - from + sym@.len()) =~= chars@.subrange(i as int, i + sym@.len()));
            }
        }
        if here {
            assert(occurs_at(line, i - from, sym@));
            assert(first_occurrence(line, sym@, i - from) == i - from);
            found = true;
            done = true;
        } else if i == to {
            assert(!occurs_at(line, i - from, sym@));
            assert(first_occurrence(line, sym@, i - from + 1) == -1);
            done = true;
        } else {
            i += 1;
        }
    }
    if found {
        let mut r = crate::text::string_from_chars(chars.as_slice(), from, i);
        let rest = crate::text::string_from_chars(chars.as_slice(), i + sym.len(), to);
        crate::text::push_str(&mut r, rest.as_str());
        assert(r@ =~= line.take(i - from) + line.skip(i - from + sym@.len()));
        r
    } else {
        crate::text::string_from_chars(chars.as_slice(), from, to)
    }
}

/// Whether every line of `r` starts with `sym` after its indentation.
fn lines_all_prefixed(r: &Vec<char>, sym: &Vec<char>) -> (b: bool)
    ensures
        b == all_lines_prefixed(r@, sym@),
{
    let mut pos: usize = 0;
    assert(r@.skip(0) =~= r@);
    loop
        invariant
            pos <= r@.len(),
            all_lines_prefixed(r@, sym@) == all_lines_prefixed(r@.skip(pos as int), sym@),
        decreases r@.len() - pos,
    {
        let k = line_end_at(r, pos);
        let ghost rest = r@.skip(pos as int);
        proof {
            lemma_line_end_skip(r@, pos as int, 0);
            assert(rest.take(k - pos) =~= r@.subrange(pos as int, k as int));
            if k < r@.len() {
                assert(rest.skip(k - pos + 1) =~= r@.skip(k + 1));
            }
        }
        if !line_has_prefix(r, pos, k, sym) {
            return false;
        }
        if k >= r.len() {
            return true;
        }
        pos = k + 1;
    }
}

/// `r` with `sym` in front of each line.
fn prefix_each_line(r: &Vec<char>, sym: &str) -> (out: String)
    ensures
        out@ == prefix_lines(r@, sym@),
{
    let mut out = String::new();
    let mut pos: usize = 0;
    assert(r@.skip(0) =~= r@);
    loop
        invariant
            pos <= r@.len(),
            out@ + prefix_lines(r@.skip(pos as int), sym@) == prefix_lines(r@, sym@),
        decreases r@.len() - pos,
    {
        let k = line_end_at(r, pos);
        let ghost rest = r@.skip(pos as int);
        let ghost before = out@;
        proof {
            lemma_line_end_skip(r@, pos as int, 0);
            assert(rest.take(k - pos) =~= r@.subrange(pos as int, k as int));
            if k < r@.len() {
                assert(rest.skip(k - pos + 1) =~= r@.skip(k + 1));
            }
        }
        crate::text::push_str(&mut out, sym);
        let line = crate::text::string_from_chars(r.as_slice(), pos, k);
        crate::text::push_str(&mut out, line.as_str());
        if k >= r.len() {
            assert(rest =~= r@.subrange(pos as int, k as int));
            assert(out@ =~= before + (sym@ + rest));
            return out;
        }
        push_char(&mut out, '\n');
        assert(before + (sym@ + rest.take(k - pos) + seq!['\n'] + prefix_lines(r@.skip(k + 1), sym@))
            =~= out@ + prefix_lines(r@.skip(k + 1), sym@));
        pos = k + 1;
    }
}

/// `r` without the first occurrence of `sym` in each line.
fn unprefix_each_line(r: &Vec<char>, sym: &Vec<char>) -> (out: String)
    ensures
        out@ == unprefix_lines(r@, sym@),
{
    let mut out = String::new();
    let mut pos: usize = 0;
    assert(r@.skip(0) =~= r@);
    loop
        invariant
            pos <= r@.len(),
            out@ + unprefix_lines(r@.skip(pos as int), sym@) == unprefix_lines(r@, sym@),
        decreases r@.len() - pos,
    {
        let k = line_end_at(r, pos);
        let ghost rest = r@.skip(pos as int);
        let ghost before = out@;
        proof {
            lemma_line_end_skip(r@, pos as int, 0);
            assert(rest.take(k - pos) =~= r@.subrange(pos as int, k as int));
            if k < r@.len() {
                assert(rest.skip(k - pos + 1) =~= r@.skip(k + 1));
            }
        }
        let line = remove_first_in(r, pos, k, sym);
        crate::text::push_str(&mut out, line.as_str());
        if k >= r.len() {
            assert(rest =~= r@.subrange(pos as int, k as int));
            assert(out@ =~= before + remove_first(rest, sym@));
            return out;
        }
        push_char(&mut out, '\n');
        assert(before + (remove_first(rest.take(k - pos), sym@) + seq!['\n'] + unprefix_lines(r@.skip(k + 1), sym@))
            =~= out@ + unprefix_lines(r@.skip(k + 1), sym@));
        pos = k + 1;
    }
}

proof fn lemma_apply_one(t: Seq<char>, v: Seq<EditInfo>)
    requires
        v.len() == 1,
    ensures
        apply_edits(t, v) == apply_edit(t, v[0]),
        edits_fit(t, v) == (0 <= v[0].at && 0 <= v[0].delete && v[0].at + v[0].delete <= t.len()),
{
    assert(v.drop_last() =~= Seq::<EditInfo>::empty());
    assert(apply_edits(t, v.drop_last()) == t);
    assert(edits_fit(t, v.drop_last()));
    assert(v.last() == v[0]);
}

proof fn lemma_apply_two(t: Seq<char>, v: Seq<EditInfo>)
    requires
        v.len() == 2,
    ensures
        apply_edits(t, v) == apply_edit(apply_edit(t, v[0]), v[1]),
        edits_fit(t, v) == (0 <= v[0].at && 0 <= v[0].delete && v[0].at + v[0].delete <= t.len()
            && 0 <= v[1].at && 0 <= v[1].delete && v[1].at + v[1].delete <= apply_edit(t, v[0]).len()),
{
    lemma_apply_one(t, v.drop_last());
}

/// The edits that apply a formatter to the text, in order, and the
/// selection to set afterwards (none: leave the buffer's own).
pub struct MarkupPlan {
    pub edits: Vec<TextEdit>,
    pub selection: Option<(usize, usize)>,
}

fn edit(at: usize, delete: usize, insert: String) -> (e: TextEdit)
    ensures
        e@ == (EditInfo { at: at as int, delete: delete as int, insert: insert@ }),
{
    TextEdit { at, delete, insert }
}

fn list_plan(chars: &Vec<char>, start: usize, end: usize, symbol: &str, sym: &Vec<char>) -> (edits: Vec<TextEdit>)
    requires
        start <= end <= chars@.len(),
        sym@ == symbol@,
    ensures
        ({
            let t = chars@;
            let a = line_start(t, start as int);
            let b = line_end(t, end as int);
            let r = t.subrange(a, b);
            let lines = if all_lines_prefixed(r, symbol@) { unprefix_lines(r, symbol@) } else { prefix_lines(r, symbol@) };
            &&& edits_fit(t, edit_views(edits@))
            &&& apply_edits(t, edit_views(edits@)) == t.take(a) + lines + t.skip(b)
        }),
{
    let a = line_start_at(chars, start);
    let b = line_end_at(chars, end);
    let region_text = crate::text::string_from_chars(chars.as_slice(), a, b);
    let region = to_chars(region_text.as_str());
    let lines = if lines_all_prefixed(&region, sym) {
        unprefix_each_line(&region, sym)
    } else {
        prefix_each_line(&region, symbol)
    };
    let mut edits: Vec<TextEdit> = Vec::new();
    edits.push(edit(a, b - a, lines));
    proof {
        lemma_apply_one(chars@, edit_views(edits@));
    }
    edits
}

fn unwrap_outer_plan(t: Ghost<Seq<char>>, start: usize, end: usize, n: usize) -> (edits: Vec<TextEdit>)
    requires
        n <= start <= end,
        end + n <= t@.len(),
    ensures
        edits_fit(t@, edit_views(edits@)),
        apply_edits(t@, edit_views(edits@)) == t@.take(start - n) + t@.subrange(start as int, end as int) + t@.skip(end + n),
{
    let mut edits: Vec<TextEdit> = Vec::new();
    edits.push(edit(end, n, String::new()));
    edits.push(edit(start - n, n, String::new()));
    proof {
        let v = edit_views(edits@);
        lemma_apply_two(t@, v);
        let t1 = apply_edit(t@, v[0]);
        assert(t1 =~= t@.take(end as int) + t@.skip(end + n));
        assert(apply_edit(t1, v[1]) =~= t@.take(start - n) + t@.subrange(start as int, end as int) + t@.skip(end + n));
    }
    edits
}

fn wrap_plan(t: Ghost<Seq<char>>, start: usize, end: usize, symbol: &str, n: usize) -> (edits: Vec<TextEdit>)
    requires
        start <= end <= t@.len(),
        n == symbol@.len(),
        end + n <= usize::MAX,
    ensures
        edits_fit(t@, edit_views(edits@)),
        apply_edits(t@, edit_views(edits@))
            == t@.take(start as int) + symbol@ + t@.subrange(start as int, end as int) + symbol@ + t@.skip(end as int),
{
    let mut edits: Vec<TextEdit> = Vec::new();
    edits.push(edit(start, 0, symbol.to_owned()));
    edits.push(edit(end + n, 0, symbol.to_owned()));
    proof {
        let v = edit_views(edits@);
        lemma_apply_two(t@, v);
        let t1 = apply_edit(t@, v[0]);
        assert(t1 =~= t@.take(start as int) + symbol@ + t@.skip(start as int));
        assert(apply_edit(t1, v[1]) =~= t@.take(start as int) + symbol@ + t@.subrange(start as int, end as int) + symbol@ + t@.skip(end as int));
    }
    edits
}

/// The edits that apply the formatter with `symbol` to the selection
/// `start..end` (character offsets; equal ones are the cursor) of `text`.
pub fn plan_markup(text: &str, start: usize, end: usize, symbol: &str) -> (r: MarkupPlan)
    requires
        start <= end <= text@.len(),
        text@.len() + 2 * symbol@.len() <= usize::MAX,
    ensures
        edits_fit(text@, edit_views(r.edits@)),
        apply_edits(text@, edit_views(r.edits@)) == markup_outcome(text@, start as int, end as int, symbol@).0,
        match r.selection {
            Some((a, b)) => markup_outcome(text@, start as int, end as int, symbol@).1 == Some((a as int, b as int)),
            None => markup_outcome(text@, start as int, end as int, symbol@).1 is None,
        },
{
    let chars = to_chars(text);
    let sym = to_chars(symbol);
    let n = sym.len();
    let len = chars.len();
    let ghost t = text@;
    if n > 0 && sym[n - 1] == ' ' {
        let edits = list_plan(&chars, start, end, symbol, &sym);
        return MarkupPlan { edits, selection: None };
    }
    if start == end {
        let mut edits: Vec<TextEdit> = Vec::new();
        edits.push(edit(start, 0, symbol.to_owned()));
        proof {
            lemma_apply_one(t, edit_views(edits@));
            assert(apply_edit(t, edit_views(edits@)[0]) =~= t.take(start as int) + symbol@ + t.skip(start as int));
        }
        return MarkupPlan { edits, selection: None };
    }
    let ghost sel = t.subrange(start as int, end as int);
    if start >= n && end + n <= len && occurs_in(&chars, start - n, start, &sym) && occurs_in(&chars, end, len, &sym) {
        let edits = unwrap_outer_plan(Ghost(t), start, end, n);
        return MarkupPlan { edits, selection: Some((start - n, end - n)) };
    }
    if end - start >= 2 * n && occurs_in(&chars, start, end, &sym) && occurs_in(&chars, end - n, end, &sym) {
        let inner = crate::text::string_from_chars(chars.as_slice(), start + n, end - n);
        let inner_len = end - start - 2 * n;
        let mut edits: Vec<TextEdit> = Vec::new();
        edits.push(edit(start, end - start, inner));
        proof {
            assert(sel.take(n as int) =~= t.subrange(start as int, start + n));
            assert(sel.skip(sel.len() - n) =~= t.subrange(end - n, end as int));
            assert(sel.subrange(n as int, sel.len() - n) =~= t.subrange(start + n, end - n));
            lemma_apply_one(t, edit_views(edits@));
            assert(apply_edit(t, edit_views(edits@)[0]) =~= t.take(start as int) + sel.subrange(n as int, sel.len() - n) + t.skip(end as int));
        }
        return MarkupPlan { edits, selection: Some((start, start + inner_len)) };
    }
    proof {
        if end - start >= 2 * n {
            assert(sel.take(n as int) =~= t.subrange(start as int, start + n));
            assert(sel.skip(sel.len() - n) =~= t.subrange(end - n, end as int));
        }
    }
    let edits = wrap_plan(Ghost(t), start, end, symbol, n);
    MarkupPlan { edits, selection: Some((start + n, end + n)) }
}

/// Wrapping a selection in a symbol and applying the same symbol to the
/// wrapped selection gives back the text and the selection.
pub proof fn lemma_wrap_then_unwrap(text: Seq<char>, start: int, end: int, symbol: Seq<char>)
    requires
        !is_list_symbol(symbol),
        0 <= start < end <= text.len(),
        !(start >= symbol.len() && end + symbol.len() <= text.len()
            && text.subrange(start - symbol.len(), start) == symbol
            && text.subrange(end, end + symbol.len()) == symbol),
        !(end - start >= 2 * symbol.len() && text.subrange(start, end).take(symbol.len() as int) == symbol
            && text.subrange(start, end).skip(end - start - symbol.len()) == symbol),
    ensures
        ({
            let n = symbol.len() as int;
            let (wrapped, sel) = markup_outcome(text, start, end, symbol);
            &&& sel == Some((start + n, end + n))
            &&& markup_outcome(wrapped, start + n, end + n, symbol) == (text, Some((start, end)))
        }),
{
    let n = symbol.len() as int;
    let sel = text.subrange(start, end);
    let w = text.take(start) + symbol + sel + symbol + text.skip(end);
    assert(markup_outcome(text, start, end, symbol).0 == w);
    assert(w.subrange(start + n - n, start + n) =~= symbol);
    assert(w.subrange(end + n, end + n + n) =~= symbol);
    assert(w.subrange(start + n, end + n) =~= sel);
    assert(w.take(start + n - n) + w.subrange(start + n, end + n) + w.skip(end + n + n) =~= text);
}

proof fn lemma_line_end_across(z: Seq<char>, i: int, m: int)
    requires
        0 <= i <= m <= z.len(),
        forall|j: int| i <= j < m ==> z[j] != '\n',
    ensures
        line_end(z, i) == line_end(z, m),
    decreases m - i,
{
    if i < m {
        lemma_line_end_across(z, i + 1, m);
    }
}

proof fn lemma_line_end_concat(x: Seq<char>, y: Seq<char>)
    requires
        forall|j: int| 0 <= j < x.len() ==> x[j] != '\n',
    ensures
        line_end(x + y, 0) == x.len() + line_end(y, 0),
{
    let z = x + y;
    assert forall|j: int| 0 <= j < x.len() implies z[j] != '\n' by {
        assert(z[j] == x[j]);
    }
    lemma_line_end_across(z, 0, x.len() as int);
    lemma_line_end_skip(z, x.len() as int, 0);
    assert(z.skip(x.len() as int) =~= y);
}

proof fn lemma_prefixed_line(symbol: Seq<char>, line: Seq<char>)
    requires
        symbol.len() > 0,
        !is_whitespace(symbol[0]),
    ensures
        ({
            let t = trim_start(symbol + line);
            symbol.len() <= t.len() && t.take(symbol.len() as int) == symbol
        }),
        remove_first(symbol + line, symbol) == line,
{
    let q = symbol + line;
    assert(q[0] == symbol[0]);
    assert(trim_start(q) == q);
    assert(q.take(symbol.len() as int) =~= symbol);
    assert(q.subrange(0, symbol.len() as int) =~= symbol);
    assert(occurs_at(q, 0, symbol));
    assert(first_occurrence(q, symbol, 0) == 0);
    assert(q.take(0) + q.skip(symbol.len() as int) =~= line);
}

/// Putting a list symbol in front of each line and applying it again takes
/// it off each line: a list toggles. This holds for symbols that start with
/// no whitespace and hold no line break, as the list symbols do.
pub proof fn lemma_list_toggle(r: Seq<char>, symbol: Seq<char>)
    requires
        symbol.len() > 0,
        !is_whitespace(symbol[0]),
        forall|j: int| 0 <= j < symbol.len() ==> symbol[j] != '\n',
    ensures
        all_lines_prefixed(prefix_lines(r, symbol), symbol),
        unprefix_lines(prefix_lines(r, symbol), symbol) == r,
    decreases r.len(),
{
    let k = line_end(r, 0);
    lemma_line_end_bounds(r, 0);
    let line = r.take(k);
    let n = symbol.len() as int;
    let p = prefix_lines(r, symbol);
    lemma_prefixed_line(symbol, line);
    assert forall|j: int| 0 <= j < line.len() implies line[j] != '\n' by {
        assert(line[j] == r[j]);
    }
    let sl = symbol + line;
    assert forall|j: int| 0 <= j < sl.len() implies sl[j] != '\n' by {
        if j < n {
            assert(sl[j] == symbol[j]);
        } else {
            assert(sl[j] == line[j - n]);
        }
    }
    if k >= r.len() {
        assert(line =~= r);
        lemma_line_end_concat(sl, Seq::<char>::empty());
        assert(sl + Seq::<char>::empty() =~= sl);
        assert(p == sl);
        assert(p.take(p.len() as int) =~= p);
    } else {
        let rest = r.skip(k + 1);
        let tail = seq!['\n'] + prefix_lines(rest, symbol);
        assert(p =~= sl + tail);
        lemma_line_end_concat(sl, tail);
        assert(line_end(tail, 0) == 0);
        assert(p.take(n + k) =~= sl);
        assert(p.skip(n + k + 1) =~= prefix_lines(rest, symbol));
        lemma_list_toggle(rest, symbol);
        assert(line + seq!['\n'] + rest =~= r);
    }
}

proof fn lemma_line_start_bounds(s: Seq<char>, i: int)
    requires
        0 <= i <= s.len(),
    ensures
        0 <= line_start(s, i) <= i,
        line_start(s, i) > 0 ==> s[line_start(s, i) - 1] == '\n',
    decreases i,
{
    if i > 0 && s[i - 1] != '\n' {
        lemma_line_start_bounds(s, i - 1);
    }
}

/// Applying a list symbol to lines that do not all start with it, then
/// applying it again to the same lines, gives back the text: the second
/// application takes off exactly the prefixes the first put on. The second
/// selection may be any that starts on the first of those lines and ends on
/// the last. This holds for symbols that start with no whitespace and hold
/// no line break, as the list symbols do.
pub proof fn lemma_list_applied_twice(text: Seq<char>, start: int, end: int, symbol: Seq<char>, start2: int, end2: int)
    requires
        0 <= start <= end <= text.len(),
        is_list_symbol(symbol),
        !is_whitespace(symbol[0]),
        forall|j: int| 0 <= j < symbol.len() ==> symbol[j] != '\n',
        !all_lines_prefixed(text.subrange(line_start(text, start), line_end(text, end)), symbol),
        ({
            let a = line_start(text, start);
            let lines = prefix_lines(text.subrange(a, line_end(text, end)), symbol);
            let t1 = markup_outcome(text, start, end, symbol).0;
            &&& 0 <= start2 <= end2 <= t1.len()
            &&& line_start(t1, start2) == a
            &&& line_end(t1, end2) == a + lines.len()
        }),
    ensures
        markup_outcome(markup_outcome(text, start, end, symbol).0, start2, end2, symbol).0 == text,
{
    let a = line_start(text, start);
    let b = line_end(text, end);
    lemma_line_start_bounds(text, start);
    lemma_line_end_bounds(text, end);
    let r = text.subrange(a, b);
    let p = prefix_lines(r, symbol);
    let t1 = text.take(a) + p + text.skip(b);
    assert(markup_outcome(text, start, end, symbol).0 == t1);
    lemma_list_toggle(r, symbol);
    assert(t1.subrange(a, a + p.len()) =~= p);
    assert(t1.take(a) =~= text.take(a));
    assert(t1.skip(a + p.len()) =~= text.skip(b));
    assert(text.take(a) + r + text.skip(b) =~= text);
}

/// Applying a list symbol to lines that do not all start with it, then
/// applying it again with the lines it changed selected, from the start of
/// the first to the end of the last, gives back the text.
pub proof fn lemma_list_toggle_round_trip(text: Seq<char>, start: int, end: int, symbol: Seq<char>)
    requires
        0 <= start <= end <= text.len(),
        is_list_symbol(symbol),
        !is_whitespace(symbol[0]),
        forall|j: int| 0 <= j < symbol.len() ==> symbol[j] != '\n',
        !all_lines_prefixed(text.subrange(line_start(text, start), line_end(text, end)), symbol),
    ensures
        ({
            let a = line_start(text, start);
            let n = prefix_lines(text.subrange(a, line_end(text, end)), symbol).len();
            let t1 = markup_outcome(text, start, end, symbol).0;
            markup_outcome(t1, a, a + n, symbol).0 == text
        }),
{
    let a = line_start(text, start);
    let b = line_end(text, end);
    lemma_line_start_bounds(text, start);
    lemma_line_end_bounds(text, end);
    let p = prefix_lines(text.subrange(a, b), symbol);
    let t1 = markup_outcome(text, start, end, symbol).0;
    assert(t1 == text.take(a) + p + text.skip(b));
    if a > 0 {
        assert(t1[a - 1] == text[a - 1]);
    }
    assert(line_start(t1, a) == a);
    if a + p.len() < t1.len() {
        assert(t1[a + p.len()] == text[b]);
    }
    assert(line_end(t1, a + p.len() as int) == a + p.len());
    lemma_list_applied_twice(text, start, end, symbol, a, a + p.len());
}

} // verus!
