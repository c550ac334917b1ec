//! The history entry of the book that is loaded: what opening, rating, noting and
//! adding by hand make of it, told by the rows of the library.

use vstd::prelude::*;

use crate::app::actions::ActionView;
use crate::app::progress::is_finished;
use crate::app::{MomentView, PlayerView, Screen};
use crate::audio::LoadedView;
use crate::library::db::{moved_to, noted, rated};
use crate::library::laws::book_found;
use crate::library::listed::{bookmarks_by_position, history_by_date};
use crate::library::rows::{
    entry_is_kept_up, first_entry_is_made, found_entry_is_stored, has_none_under, history_has_room, one_entry_per_book,
    only_that_book_changes, only_that_entry_changes, stands_under, tells_of,
};
use crate::library::tables::{change_book_keeps_valid, change_entry_keeps_valid, filter_from, one_entry_per_id};
use crate::library::{BookView, HistoryView, MetaView};
use crate::toast::Level;

verus! {

/// Opening a book shows the entry that the history holds under the book's path,
/// with its note to be edited; or no entry and an empty note where there is none.
pub proof fn opened_book_shows_its_entry(p: PlayerView, book: BookView, meta: MetaView, rate: u32, at: MomentView)
    ensures
        ({
            let after = p.opened(book, meta, rate, at);
            &&& after.current_history matches Some(h) ==> {
                &&& exists|i: int| stands_under(p.db.history, book.path, i) && p.db.history[i] == h
                &&& after.note_edit == h.note
            }
            &&& after.current_history is None ==> has_none_under(p.db.history, book.path) && after.note_edit.len() == 0
            &&& after.db == p.db
        }),
{
    found_entry_is_stored(p.db, book.path);
}

/// Opening a book loads its file with what is known of it, shows its bookmarks and
/// no other, by position, and starts afresh: nothing of the book before is left.
pub proof fn opened_book_is_the_one_shown(p: PlayerView, book: BookView, meta: MetaView, rate: u32, at: MomentView)
    requires
        p.db.valid(),
        p.engine is Some,
    ensures
        ({
            let after = p.opened(book, meta, rate, at);
            let l = after.bookmarks;
            &&& after.loaded() == Some(LoadedView { path: book.path, meta })
            &&& after.engine->Some_0.paused
            &&& after.engine->Some_0.speed_bits == 0x3f80_0000
            &&& after.engine->Some_0.controls matches Some(c) && c.speed_bits == 0x3f80_0000 && c.input_rate == rate
            &&& after.current_book_id == Some(book.id)
            &&& after.last_pos is None && after.last_mpris_playing is None
            &&& !after.history_pushed
            &&& after.sleep is Off
            &&& after.last_save == at.tick
            &&& after.screen == Screen::Player
            &&& after.status.len() == 0
            &&& after.books == p.books && after.history == p.history && after.toasts == p.toasts
            &&& forall|k: int|
                0 <= k < p.db.bookmarks.len() && (#[trigger] p.db.bookmarks[k]).book_id == book.id ==> l.contains(
                    p.db.bookmarks[k],
                )
            &&& forall|i: int| 0 <= i < l.len() ==> (#[trigger] l[i]).book_id == book.id && p.db.bookmarks.contains(l[i])
            &&& forall|i: int, j: int|
                0 <= i < j < l.len() ==> (#[trigger] l[i]).position <= (#[trigger] l[j]).position
        }),
{
    bookmarks_by_position(p.db, book.id);
}

/// Whether the entry that is shown, if any, is one that the history holds under
/// this path.
pub open spec fn shown_entry_is_stored(p: PlayerView, path: Seq<char>) -> bool {
    p.current_history matches Some(h) ==> exists|i: int|
        #[trigger] stands_under(p.db.history, path, i) && p.db.history[i].id == h.id
}

/// Whether the book at this place of the library is the one that is loaded, and
/// its entry the one that is shown, if any.
pub open spec fn plays_row(p: PlayerView, b: int) -> bool {
    &&& p.db.valid()
    &&& 0 <= b < p.db.books.len()
    &&& p.current_book_id == Some(p.db.books[b].book.id)
    &&& shown_entry_is_stored(p, p.db.books[b].book.path)
}

/// A book that was opened is the one that is loaded, with its entry shown.
pub proof fn opened_row_plays(p: PlayerView, b: int, meta: MetaView, rate: u32, at: MomentView)
    requires
        p.db.valid(),
        0 <= b < p.db.books.len(),
    ensures
        plays_row(p.opened(p.db.books[b].book, meta, rate, at), b),
{
    let book = p.db.books[b].book;
    let after = p.opened(book, meta, rate, at);
    opened_book_shows_its_entry(p, book, meta, rate, at);
    if after.current_history is Some {
        let h = after.current_history->Some_0;
        let i = choose|i: int| stands_under(p.db.history, book.path, i) && p.db.history[i] == h;
        assert(stands_under(after.db.history, book.path, i) && after.db.history[i].id == h.id);
    }
}

/// What asking for an entry of the loaded book comes to, by its rows.
proof fn entry_is_ensured(p: PlayerView, b: int, manual: bool, stamp: i64)
    requires
        plays_row(p, b),
        history_has_room(p.db.history),
    ensures
        ({
            let book = p.db.books[b].book;
            let w = p.with_entry(manual, stamp);
            let n = p.db.history.len() as int;
            &&& w.db.valid()
            &&& w.db.books == p.db.books
            &&& w.current_book_id == p.current_book_id
            &&& w.db.book(book.id) == Some(book)
            &&& has_none_under(p.db.history, book.path) ==> {
                let e = w.db.history[n];
                &&& w.db.history.len() == n + 1
                &&& forall|j: int| 0 <= j < n ==> #[trigger] w.db.history[j] == p.db.history[j]
                &&& tells_of(e, book)
                &&& e.rating is None && e.note.len() == 0
                &&& e.first_played == Some(stamp) && e.last_played == Some(stamp)
                &&& !e.finished && e.added_manually == manual
                &&& w.current_history == Some(e)
                &&& w.note_edit == e.note
                &&& w.history == w.with_history().history
            }
            &&& forall|i: int|
                #[trigger] stands_under(p.db.history, book.path, i) ==> {
                    let h = p.db.history[i];
                    let e = w.db.history[i];
                    &&& w.db.history.len() == n
                    &&& forall|j: int| 0 <= j < n && j != i ==> #[trigger] w.db.history[j] == p.db.history[j]
                    &&& e.id == h.id && e.keyed && e.book_key == book.path
                    &&& e.rating == h.rating && e.note == h.note
                    &&& e.finished == h.finished
                    &&& p.current_history is Some ==> w == p
                    &&& p.current_history is None ==> {
                        &&& tells_of(e, book)
                        &&& e.last_played == Some(stamp)
                        &&& h.first_played is Some ==> e.first_played == h.first_played
                        &&& e.added_manually == (h.added_manually || manual)
                        &&& w.note_edit == h.note
                        &&& w.current_history == Some(e)
                    }
                    &&& w.current_history is Some && w.current_history->Some_0.id == e.id
                }
        }),
{
    let book = p.db.books[b].book;
    let w = p.with_entry(manual, stamp);
    book_found(p.db, b);
    if has_none_under(p.db.history, book.path) {
        if p.current_history is Some {
            let h = p.current_history->Some_0;
            let i = choose|i: int|
                #[trigger] stands_under(p.db.history, book.path, i) && p.db.history[i].id == h.id;
            assert(false);
        }
        first_entry_is_made(p.db, book, false, manual, stamp);
        let n = p.db.history.len() as int;
        assert forall|j: int| 0 <= j < n implies #[trigger] w.db.history[j] == p.db.history[j] by {
            assert(w.db.history.drop_last()[j] == p.db.history[j]);
        }
        assert(stands_under(w.db.history, book.path, n));
        one_entry_per_book(w.db, book.path, n);
        book_found(w.db, b);
    }
    assert forall|i: int| #[trigger] stands_under(p.db.history, book.path, i) implies {
        let h = p.db.history[i];
        let e = w.db.history[i];
        &&& w.db.history.len() == p.db.history.len()
        &&& w.db.valid()
        &&& w.db.books == p.db.books
        &&& w.current_book_id == p.current_book_id
        &&& w.db.book(book.id) == Some(book)
        &&& forall|j: int| 0 <= j < p.db.history.len() && j != i ==> #[trigger] w.db.history[j] == p.db.history[j]
        &&& e.id == h.id && e.keyed && e.book_key == book.path
        &&& e.rating == h.rating && e.note == h.note
        &&& e.finished == h.finished
        &&& p.current_history is Some ==> w == p
        &&& p.current_history is None ==> {
            &&& tells_of(e, book)
            &&& e.last_played == Some(stamp)
            &&& h.first_played is Some ==> e.first_played == h.first_played
            &&& e.added_manually == (h.added_manually || manual)
            &&& w.note_edit == h.note
            &&& w.current_history == Some(e)
        }
        &&& w.current_history is Some && w.current_history->Some_0.id == e.id
    } by {
        one_entry_per_book(p.db, book.path, i);
        if p.current_history is Some {
            let k = choose|k: int|
                #[trigger] stands_under(p.db.history, book.path, k) && p.db.history[k].id
                    == p.current_history->Some_0.id;
            assert(k == i);
        } else {
            entry_is_kept_up(p.db, book, false, manual, stamp, i);
            assert(stands_under(w.db.history, book.path, i));
            one_entry_per_book(w.db, book.path, i);
            book_found(w.db, b);
        }
    }
    if !has_none_under(p.db.history, book.path) {
        let i = choose|i: int| 0 <= i < p.db.history.len() && stands_under(p.db.history, book.path, i);
        assert(stands_under(p.db.history, book.path, i));
    }
}

/// After the entry of the loaded book was changed, it is read again.
proof fn entry_is_reread(w: PlayerView, b: int, i: int, f: spec_fn(HistoryView) -> HistoryView)
    requires
        w.db.valid(),
        0 <= b < w.db.books.len(),
        w.current_book_id == Some(w.db.books[b].book.id),
        w.db.book(w.db.books[b].book.id) == Some(w.db.books[b].book),
        stands_under(w.db.history, w.db.books[b].book.path, i),
        w.current_history is Some,
        w.current_history->Some_0.id == w.db.history[i].id,
        forall|h: HistoryView|
            (#[trigger] f(h)).id == h.id && f(h).book_key == h.book_key && f(h).keyed == h.keyed && (f(h).rating matches Some(
                r,
            ) ==> r <= 5 || f(h).rating == h.rating),
    ensures
        ({
            let c = w.with_db(w.db.change_entry(w.db.history[i].id, f));
            let after = c.with_entry_reread();
            &&& w.entry_id() == Some(w.db.history[i].id)
            &&& after.db == c.db
            &&& after.db.valid()
            &&& after.db.history.len() == w.db.history.len()
            &&& after.db.history[i] == f(w.db.history[i])
            &&& forall|j: int| 0 <= j < w.db.history.len() && j != i ==> #[trigger] after.db.history[j] == w.db.history[j]
            &&& after.current_history == Some(after.db.history[i])
            &&& after.note_edit == w.note_edit
            &&& after.history == after.with_history().history
        }),
{
    let path = w.db.books[b].book.path;
    let c = w.with_db(w.db.change_entry(w.db.history[i].id, f));
    change_entry_keeps_valid(w.db, w.db.history[i].id, f);
    assert(c.db.history[i] == f(w.db.history[i]));
    assert(stands_under(c.db.history, path, i));
    one_entry_per_book(c.db, path, i);
    book_found(c.db, b);
    assert forall|j: int| 0 <= j < w.db.history.len() && j != i implies #[trigger] c.db.history[j] == w.db.history[j] by {
        if w.db.history[j].id == w.db.history[i].id {
            one_entry_per_id(w.db.history, i, j);
        }
    }
}

/// Rating the loaded book changes the rating of the entry under that book's path,
/// to five stars at most, and of no other entry. Where it has none yet, one is
/// made that says what the book says and is neither finished nor added by hand;
/// where it has one, its note and its finished mark stay.
pub proof fn rating_is_of_the_loaded_book(p: PlayerView, b: int, rating: u8, at: MomentView)
    requires
        plays_row(p, b),
        history_has_room(p.db.history),
    ensures
        ({
            let book = p.db.books[b].book;
            let after = p.applied(ActionView::RateBook(rating), at);
            let n = p.db.history.len() as int;
            let stars = if rating > 5 {
                5u8
            } else {
                rating
            };
            &&& forall|j: int|
                0 <= j < n && !stands_under(p.db.history, book.path, j) ==> #[trigger] after.db.history[j]
                    == p.db.history[j]
            &&& forall|i: int|
                #[trigger] stands_under(p.db.history, book.path, i) ==> {
                    let h = p.db.history[i];
                    let e = after.db.history[i];
                    &&& after.db.history.len() == n
                    &&& e.rating == Some(stars)
                    &&& e.id == h.id && e.book_key == h.book_key && e.keyed
                    &&& e.note == h.note && e.finished == h.finished && e.added_manually == h.added_manually
                    &&& h.first_played is Some ==> e.first_played == h.first_played
                    &&& p.current_history is Some ==> e == (HistoryView { rating: Some(stars), ..h }) && after.note_edit
                        == p.note_edit
                    &&& after.current_history == Some(e)
                }
            &&& has_none_under(p.db.history, book.path) ==> {
                let e = after.db.history[n];
                &&& after.db.history.len() == n + 1
                &&& tells_of(e, book)
                &&& e.rating == Some(stars)
                &&& e.note.len() == 0
                &&& e.first_played == Some(at.stamp) && e.last_played == Some(at.stamp)
                &&& !e.finished && !e.added_manually
                &&& after.current_history == Some(e)
                &&& after.note_edit.len() == 0
            }
            &&& after.db.valid()
            &&& after.history == after.with_history().history
        }),
{
    let book = p.db.books[b].book;
    let w = p.with_entry(false, at.stamp);
    entry_is_ensured(p, b, false, at.stamp);
    let n = p.db.history.len() as int;
    let f = rated(Some(rating));
    if has_none_under(p.db.history, book.path) {
        assert(stands_under(w.db.history, book.path, n));
        entry_is_reread(w, b, n, f);
    } else {
        let i = choose|i: int| 0 <= i < n && stands_under(p.db.history, book.path, i);
        assert(stands_under(p.db.history, book.path, i));
        one_entry_per_book(p.db, book.path, i);
        assert(stands_under(w.db.history, book.path, i));
        entry_is_reread(w, b, i, f);
    }
}

/// Noting something on the loaded book changes the note of the entry under that
/// book's path, and of no other entry. Where it has none yet, one is made that
/// says what the book says, is not rated, and is neither finished nor added by
/// hand; where it has one, its rating and its finished mark stay.
pub proof fn note_is_of_the_loaded_book(p: PlayerView, b: int, note: Seq<char>, at: MomentView)
    requires
        plays_row(p, b),
        history_has_room(p.db.history),
    ensures
        ({
            let book = p.db.books[b].book;
            let after = p.applied(ActionView::SetNote(note), at);
            let n = p.db.history.len() as int;
            &&& forall|j: int|
                0 <= j < n && !stands_under(p.db.history, book.path, j) ==> #[trigger] after.db.history[j]
                    == p.db.history[j]
            &&& forall|i: int|
                #[trigger] stands_under(p.db.history, book.path, i) ==> {
                    let h = p.db.history[i];
                    let e = after.db.history[i];
                    &&& after.db.history.len() == n
                    &&& e.note == note
                    &&& e.id == h.id && e.book_key == h.book_key && e.keyed
                    &&& e.rating == h.rating && e.finished == h.finished && e.added_manually == h.added_manually
                    &&& h.first_played is Some ==> e.first_played == h.first_played
                    &&& p.current_history is Some ==> e == (HistoryView { note, ..h }) && after.note_edit == p.note_edit
                    &&& after.current_history == Some(e)
                }
            &&& has_none_under(p.db.history, book.path) ==> {
                let e = after.db.history[n];
                &&& after.db.history.len() == n + 1
                &&& tells_of(e, book)
                &&& e.rating is None
                &&& e.note == note
                &&& e.first_played == Some(at.stamp) && e.last_played == Some(at.stamp)
                &&& !e.finished && !e.added_manually
                &&& after.current_history == Some(e)
            }
            &&& after.db.valid()
            &&& after.history == after.with_history().history
        }),
{
    let book = p.db.books[b].book;
    let w = p.with_entry(false, at.stamp);
    entry_is_ensured(p, b, false, at.stamp);
    let n = p.db.history.len() as int;
    let f = noted(note);
    if has_none_under(p.db.history, book.path) {
        assert(stands_under(w.db.history, book.path, n));
        entry_is_reread(w, b, n, f);
    } else {
        let i = choose|i: int| 0 <= i < n && stands_under(p.db.history, book.path, i);
        assert(stands_under(p.db.history, book.path, i));
        one_entry_per_book(p.db, book.path, i);
        assert(stands_under(w.db.history, book.path, i));
        entry_is_reread(w, b, i, f);
    }
}

/// Adding the loaded book to the history by hand, where it has no entry yet, makes
/// one under its path that is marked as added by hand and not as finished; where
/// one is shown already, nothing changes; and an entry that it has keeps its
/// finished mark, its rating and its note.
pub proof fn loaded_book_is_added_by_hand(p: PlayerView, b: int, at: MomentView)
    requires
        plays_row(p, b),
        history_has_room(p.db.history),
    ensures
        ({
            let book = p.db.books[b].book;
            let after = p.applied(ActionView::AddToHistory, at);
            let n = p.db.history.len() as int;
            &&& p.current_history is Some ==> after == p
            &&& forall|j: int|
                0 <= j < n && !stands_under(p.db.history, book.path, j) ==> #[trigger] after.db.history[j]
                    == p.db.history[j]
            &&& forall|i: int|
                #[trigger] stands_under(p.db.history, book.path, i) ==> {
                    let h = p.db.history[i];
                    let e = after.db.history[i];
                    &&& after.db.history.len() == n
                    &&& e.id == h.id && e.book_key == h.book_key && e.keyed
                    &&& e.rating == h.rating && e.note == h.note && e.finished == h.finished
                    &&& p.current_history is None ==> e.added_manually && e.last_played == Some(at.stamp)
                        && after.current_history == Some(e)
                }
            &&& has_none_under(p.db.history, book.path) ==> {
                let e = after.db.history[n];
                &&& after.db.history.len() == n + 1
                &&& tells_of(e, book)
                &&& e.rating is None && e.note.len() == 0
                &&& e.first_played == Some(at.stamp) && e.last_played == Some(at.stamp)
                &&& !e.finished && e.added_manually
                &&& after.current_history == Some(e)
                &&& after.note_edit.len() == 0
                &&& after.history == after.with_history().history
            }
        }),
{
    let book = p.db.books[b].book;
    entry_is_ensured(p, b, true, at.stamp);
    let n = p.db.history.len() as int;
    if !has_none_under(p.db.history, book.path) {
        let i = choose|i: int| 0 <= i < n && stands_under(p.db.history, book.path, i);
        assert(stands_under(p.db.history, book.path, i));
        one_entry_per_book(p.db, book.path, i);
    }
}

/// A book of the library that is added to the history by hand has an entry there
/// under its path, marked as added by hand, and as finished if the book is or the
/// entry was; no other entry changes. Where it is the book that is loaded, the
/// entry and its note are shown.
pub proof fn any_book_is_added_by_hand(p: PlayerView, b: int, at: MomentView)
    requires
        p.db.valid(),
        0 <= b < p.db.books.len(),
        history_has_room(p.db.history),
    ensures
        ({
            let book = p.db.books[b].book;
            let after = p.applied(ActionView::AddBookToHistory(book.id), at);
            let n = p.db.history.len() as int;
            let t = after.toasts.last();
            &&& forall|j: int|
                0 <= j < n && !stands_under(p.db.history, book.path, j) ==> #[trigger] after.db.history[j]
                    == p.db.history[j]
            &&& forall|i: int|
                #[trigger] stands_under(p.db.history, book.path, i) ==> {
                    let h = p.db.history[i];
                    let e = after.db.history[i];
                    &&& after.db.history.len() == n
                    &&& tells_of(e, book)
                    &&& e.id == h.id && e.rating == h.rating && e.note == h.note
                    &&& e.finished <==> h.finished || book.finished
                    &&& e.added_manually && e.last_played == Some(at.stamp)
                    &&& p.current_book_id == Some(book.id) ==> after.current_history == Some(e) && after.note_edit
                        == e.note
                }
            &&& has_none_under(p.db.history, book.path) ==> {
                let e = after.db.history[n];
                &&& after.db.history.len() == n + 1
                &&& tells_of(e, book)
                &&& e.rating is None && e.note.len() == 0
                &&& e.first_played == Some(at.stamp) && e.last_played == Some(at.stamp)
                &&& e.finished == book.finished && e.added_manually
                &&& p.current_book_id == Some(book.id) ==> after.current_history == Some(e) && after.note_edit.len() == 0
            }
            &&& p.current_book_id != Some(book.id) ==> after.current_history == p.current_history && after.note_edit
                == p.note_edit
            &&& after.history == after.with_history().history
            &&& after.toasts.len() == p.toasts.len() + 1
            &&& after.toasts.drop_last() == p.toasts
            &&& t.level == Level::Success && t.created == at.tick
            &&& t.text == "Added \u{201c}"@ + book.title + "\u{201d} to My History."@
        }),
{
    let book = p.db.books[b].book;
    let after = p.applied(ActionView::AddBookToHistory(book.id), at);
    let n = p.db.history.len() as int;
    book_found(p.db, b);
    assert(after.toasts.drop_last() =~= p.toasts);
    if has_none_under(p.db.history, book.path) {
        first_entry_is_made(p.db, book, book.finished, true, at.stamp);
        assert forall|j: int| 0 <= j < n implies #[trigger] after.db.history[j] == p.db.history[j] by {
            assert(after.db.history.drop_last()[j] == p.db.history[j]);
        }
        assert(stands_under(after.db.history, book.path, n));
        one_entry_per_book(after.db, book.path, n);
    } else {
        let i = choose|i: int| 0 <= i < n && stands_under(p.db.history, book.path, i);
        assert(stands_under(p.db.history, book.path, i));
        one_entry_per_book(p.db, book.path, i);
        entry_is_kept_up(p.db, book, book.finished, true, at.stamp, i);
        assert(stands_under(after.db.history, book.path, i));
        one_entry_per_book(after.db, book.path, i);
    }
}

/// In the list of the history, rating, noting and dating an entry change that of
/// the entry with this number, and of no other; what is being typed as the note of
/// the loaded book stays.
pub proof fn listed_entry_alone_changes(p: PlayerView, id: i64, rating: u8, note: Seq<char>, epoch: i64, at: MomentView, i: int)
    requires
        0 <= i < p.db.history.len(),
    ensures
        ({
            let h = p.db.history[i];
            let a = p.applied(ActionView::RateHistory(id, rating), at);
            let b = p.applied(ActionView::SetHistoryNote(id, note), at);
            let c = p.applied(ActionView::SetHistoryDate(id, epoch), at);
            &&& a.db.history.len() == p.db.history.len()
            &&& b.db.history.len() == p.db.history.len()
            &&& c.db.history.len() == p.db.history.len()
            &&& h.id != id ==> a.db.history[i] == h && b.db.history[i] == h && c.db.history[i] == h
            &&& h.id == id ==> {
                &&& a.db.history[i] == (HistoryView {
                    rating: Some(
                        if rating > 5 {
                            5u8
                        } else {
                            rating
                        },
                    ),
                    ..h
                })
                &&& b.db.history[i] == (HistoryView { note, ..h })
                &&& c.db.history[i] == (HistoryView { last_played: Some(epoch), ..h })
            }
            &&& a.history == a.with_history().history
            &&& b.history == b.with_history().history
            &&& c.history == c.with_history().history
            &&& a.note_edit == p.note_edit && b.note_edit == p.note_edit && c.note_edit == p.note_edit
        }),
{
    only_that_entry_changes(p.db, id, Some(rating), note, epoch, i);
}

/// The stars that are shown for the loaded book follow when its entry is rated in
/// the list of the history.
pub proof fn shown_rating_follows(p: PlayerView, b: int, id: i64, rating: u8, at: MomentView)
    requires
        plays_row(p, b),
        p.current_history is Some,
        p.current_history->Some_0.id == id,
    ensures
        ({
            let after = p.applied(ActionView::RateHistory(id, rating), at);
            &&& after.current_history is Some
            &&& after.current_history->Some_0.id == id
            &&& after.current_history->Some_0.book_key == p.db.books[b].book.path
            &&& after.current_history->Some_0.rating == Some(
                if rating > 5 {
                    5u8
                } else {
                    rating
                },
            )
        }),
{
    let path = p.db.books[b].book.path;
    book_found(p.db, b);
    let i = choose|i: int| #[trigger] stands_under(p.db.history, path, i) && p.db.history[i].id == id;
    entry_is_reread(p, b, i, rated(Some(rating)));
}

/// A history entry that is removed is gone, and no other; where it was the one of
/// the loaded book, no entry and no note are shown any more.
pub proof fn removed_entry_is_not_shown(p: PlayerView, id: i64, at: MomentView, h: HistoryView)
    ensures
        ({
            let after = p.applied(ActionView::RemoveHistory(id), at);
            let current = p.current_history is Some && p.current_history->Some_0.id == id;
            &&& after.db.history.contains(h) <==> p.db.history.contains(h) && h.id != id
            &&& current ==> after.current_history is None && after.note_edit.len() == 0
            &&& !current ==> after.current_history == p.current_history && after.note_edit == p.note_edit
            &&& after.history == after.with_history().history
        }),
{
    let f = |h: HistoryView| h.id != id;
    filter_from(p.db.history, f);
    let kept = p.db.history.filter(f);
    if kept.contains(h) {
        let k = choose|k: int| 0 <= k < kept.len() && kept[k] == h;
        assert(p.db.history.contains(kept[k]) && f(kept[k]));
    }
    if p.db.history.contains(h) && h.id != id {
        assert(f(h));
        assert(kept.contains(h));
    }
}

/// The history that is listed after any of these actions holds the entries of the
/// library and no others, the last listened to first.
pub proof fn history_is_listed_whole(p: PlayerView)
    requires
        p.db.valid(),
    ensures
        ({
            let l = p.with_history().history;
            &&& l.len() == p.db.history.len()
            &&& forall|k: int| 0 <= k < p.db.history.len() ==> l.contains(#[trigger] p.db.history[k])
            &&& forall|i: int| 0 <= i < l.len() ==> p.db.history.contains(#[trigger] l[i])
            &&& forall|i: int, j: int|
                0 <= i < j < l.len() ==> ((#[trigger] l[j]).last_played is Some ==> (#[trigger] l[i]).last_played is Some
                    && l[i].last_played->Some_0 >= l[j].last_played->Some_0)
        }),
{
    history_by_date(p.db);
}

/// Remembering the position keeps it in the loaded book alone: a book of known
/// length counts as finished from thirty seconds before its end on. When it is
/// finished for the first time since it was opened, its entry, made if there is
/// none, is marked as finished, and no other entry changes; otherwise the history
/// is left alone.
pub proof fn position_is_kept_in_the_loaded_book(p: PlayerView, b: int, at: MomentView)
    requires
        p.db.valid(),
        0 <= b < p.db.books.len(),
        p.current_book_id == Some(p.db.books[b].book.id),
        p.engine is Some,
        history_has_room(p.db.history),
    ensures
        ({
            let book = p.db.books[b].book;
            let after = p.saved(at);
            let pos = p.engine->Some_0.position();
            let length = if p.loaded() is Some && p.loaded()->Some_0.meta.duration is Some {
                p.loaded()->Some_0.meta.duration->Some_0
            } else {
                0
            };
            let finished = length > 0 && length - pos <= 30_000_000_000;
            let n = p.db.history.len() as int;
            &&& after.db.books.len() == p.db.books.len()
            &&& after.db.books[b].book == (BookView { position: pos, finished, last_played: Some(at.stamp), ..book })
            &&& forall|k: int| 0 <= k < p.db.books.len() && k != b ==> #[trigger] after.db.books[k] == p.db.books[k]
            &&& after.last_save == at.tick
            &&& after.history_pushed == (p.history_pushed || finished)
            &&& !finished || p.history_pushed ==> after.db.history == p.db.history
            &&& forall|j: int|
                0 <= j < n && !stands_under(p.db.history, book.path, j) ==> #[trigger] after.db.history[j]
                    == p.db.history[j]
            &&& finished && !p.history_pushed ==> {
                &&& has_none_under(p.db.history, book.path) ==> {
                    let e = after.db.history[n];
                    &&& after.db.history.len() == n + 1
                    &&& tells_of(e, book)
                    &&& e.rating is None && e.note.len() == 0
                    &&& e.first_played == Some(at.stamp) && e.last_played == Some(at.stamp)
                    &&& e.finished && !e.added_manually
                }
                &&& forall|i: int|
                    #[trigger] stands_under(p.db.history, book.path, i) ==> {
                        let h = p.db.history[i];
                        let e = after.db.history[i];
                        &&& after.db.history.len() == n
                        &&& tells_of(e, book)
                        &&& e.id == h.id && e.rating == h.rating && e.note == h.note
                        &&& e.finished && e.added_manually == h.added_manually
                        &&& e.last_played == Some(at.stamp)
                    }
            }
            &&& after.engine == p.engine && after.screen == p.screen && after.sleep == p.sleep
            &&& after.current_history == p.current_history && after.note_edit == p.note_edit
        }),
{
    let book = p.db.books[b].book;
    let pos = p.engine->Some_0.position();
    let finished = is_finished(pos, p.total());
    let n = p.db.history.len() as int;
    let f = moved_to(pos, finished, at.stamp);
    let moved = p.db.change_book(book.id, f);
    change_book_keeps_valid(p.db, book.id, f);
    only_that_book_changes(p.db, book.id, pos, finished, at.stamp, 0, b);
    book_found(moved, b);
    let now = moved.books[b].book;
    let after = p.saved(at);
    assert forall|k: int| 0 <= k < p.db.books.len() && k != b implies #[trigger] after.db.books[k] == p.db.books[k] by {
        only_that_book_changes(p.db, book.id, pos, finished, at.stamp, 0, k);
        if p.db.books[k].book.id == book.id {
            crate::library::tables::one_book_per_id(p.db.books, k, b);
        }
    }
    if finished && !p.history_pushed {
        if has_none_under(p.db.history, book.path) {
            first_entry_is_made(moved, now, true, false, at.stamp);
            assert forall|j: int| 0 <= j < n implies #[trigger] after.db.history[j] == p.db.history[j] by {
                assert(after.db.history.drop_last()[j] == p.db.history[j]);
            }
        } else {
            let i = choose|i: int| 0 <= i < n && stands_under(p.db.history, book.path, i);
            assert(stands_under(moved.history, book.path, i));
            one_entry_per_book(moved, book.path, i);
            entry_is_kept_up(moved, now, true, false, at.stamp, i);
        }
    }
}

} // verus!
