//! The cursor navigation history of an editor tab: where the cursor has
//! been, so that a jump can be retraced.

use vstd::prelude::*;
use crate::text::str_eq;

verus! {

/// A place the cursor has been: the file of the tab (none for an unsaved
/// one), and the cursor's character offset in it.
pub struct NavState {
    pub file: Option<String>,
    pub cursor_offset: i32,
}

/// A place as plain values.
pub struct NavPlace {
    pub file: Option<Seq<char>>,
    pub cursor_offset: int,
}

impl View for NavState {
    type V = NavPlace;

    open spec fn view(&self) -> NavPlace {
        NavPlace {
            file: match self.file {
                Some(f) => Some(f@),
                None => None,
            },
            cursor_offset: self.cursor_offset as int,
        }
    }
}

impl Clone for NavState {
    fn clone(&self) -> (r: Self)
        ensures
            r@ == self@,
    {
        NavState {
            file: match &self.file {
                Some(f) => Some(f.clone()),
                None => None,
            },
            cursor_offset: self.cursor_offset,
        }
    }
}

/// The places of a history, in order.
pub open spec fn nav_places(history: Seq<NavState>) -> Seq<NavPlace> {
    history.map_values(|s: NavState| s@)
}

/// A move to `place` is worth remembering after the entry at `index`: there
/// is no such entry, or it is in another file, or more than a hundred
/// characters away.
pub open spec fn nav_worth_recording(history: Seq<NavPlace>, index: int, place: NavPlace) -> bool {
    if 0 <= index < history.len() {
        let last = history[index];
        last.file != place.file || last.cursor_offset - place.cursor_offset > 100
            || place.cursor_offset - last.cursor_offset > 100
    } else {
        true
    }
}

/// The history and index after the cursor moved to `place`, unless the tab
/// is itself moving through its history: the entries after `index` are
/// dropped, `place` is appended, the oldest entry goes when there are more
/// than `limit`, and the index points at the newest entry.
pub open spec fn nav_after_move(history: Seq<NavPlace>, index: int, place: NavPlace, limit: nat, navigating: bool) -> (Seq<NavPlace>, int) {
    if navigating || !nav_worth_recording(history, index, place) {
        (history, index)
    } else {
        let kept = if index + 1 < history.len() { history.take(index + 1) } else { history };
        let pushed = kept.push(place);
        let trimmed = if pushed.len() > limit { pushed.skip(1) } else { pushed };
        (trimmed, if trimmed.len() == 0 { 0 } else { trimmed.len() - 1 })
    }
}

fn same_file(a: &Option<String>, b: &Option<String>) -> (r: bool)
    ensures
        r == ((match a { Some(f) => Some(f@), None => None::<Seq<char>> })
            == (match b { Some(f) => Some(f@), None => None::<Seq<char>> })),
{
    match (a, b) {
        (Some(x), Some(y)) => str_eq(x.as_str(), y.as_str()),
        (None, None) => true,
        _ => false,
    }
}

/// Records that the cursor of a tab moved to `place`, keeping at most
/// `history_length` places; nothing is recorded while the tab is moving
/// through its own history, or for a small move within the same file.
pub fn record_navigation(history: &mut Vec<NavState>, index: &mut usize, place: NavState, history_length: usize, navigating: bool)
    ensures
        (nav_places(final(history)@), *final(index) as int)
            == nav_after_move(nav_places(old(history)@), *old(index) as int, place@, history_length as nat, navigating),
{
    if navigating {
        return;
    }
    let worth = if *index < history.len() {
        let last = &history[*index];
        let offset_gap: i64 = last.cursor_offset as i64 - place.cursor_offset as i64;
        !same_file(&last.file, &place.file) || offset_gap > 100 || offset_gap < -100
    } else {
        true
    };
    if !worth {
        return;
    }
    let ghost before = nav_places(history@);
    if *index < history.len() {
        history.truncate(*index + 1);
    }
    let ghost kept = nav_places(history@);
    proof {
        if *index + 1 < before.len() {
            assert(kept =~= before.take(*index + 1));
        } else {
            assert(kept =~= before);
        }
    }
    history.push(place);
    assert(nav_places(history@) =~= kept.push(place@));
    if history.len() > history_length {
        history.remove(0);
        assert(nav_places(history@) =~= kept.push(place@).skip(1));
    }
    *index = if history.len() == 0 { 0 } else { history.len() - 1 };
}

/// The history never holds more places than its limit, once it is within it.
pub proof fn lemma_nav_within_limit(history: Seq<NavPlace>, index: int, place: NavPlace, limit: nat, navigating: bool)
    requires
        history.len() <= limit,
        0 <= index,
    ensures
        nav_after_move(history, index, place, limit, navigating).0.len() <= limit,
{
}

/// A recorded move leaves the new place as the newest entry, with the index
/// on it; the places before it are the ones up to the old index, oldest
/// dropped first.
pub proof fn lemma_nav_records_place(history: Seq<NavPlace>, index: int, place: NavPlace, limit: nat)
    requires
        limit >= 1,
        0 <= index,
        nav_worth_recording(history, index, place),
    ensures
        ({
            let (h, i) = nav_after_move(history, index, place, limit, false);
            &&& h.len() >= 1
            &&& h.last() == place
            &&& i == h.len() - 1
        }),
{
}

/// Within one file, a move is recorded exactly when the cursor jumps more
/// than a hundred characters, backwards as well as forwards; a smaller move
/// leaves the history and its index as they were.
pub proof fn lemma_nav_jump_distance(history: Seq<NavPlace>, index: int, place: NavPlace, limit: nat)
    requires
        limit >= 1,
        0 <= index < history.len(),
        history[index].file == place.file,
    ensures
        ({
            let d = history[index].cursor_offset - place.cursor_offset;
            let (h, i) = nav_after_move(history, index, place, limit, false);
            &&& (d > 100 || d < -100) ==> h.len() >= 1 && h.last() == place && i == h.len() - 1
                && h.drop_last() == (if index + 2 > limit { history.subrange(1, index + 1) } else { history.take(index + 1) })
            &&& (-100 <= d <= 100) ==> h == history && i == index
        }),
{
    let d = history[index].cursor_offset - place.cursor_offset;
    if d > 100 || d < -100 {
        let kept = if index + 1 < history.len() { history.take(index + 1) } else { history };
        assert(kept =~= history.take(index + 1));
        let pushed = kept.push(place);
        if pushed.len() > limit {
            assert(pushed.skip(1).drop_last() =~= history.subrange(1, index + 1));
        } else {
            assert(pushed.drop_last() =~= history.take(index + 1));
        }
    }
}

} // verus!
