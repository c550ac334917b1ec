//! The entry that is shown for the loaded book is one that the history holds under
//! the book's path, whatever the listener does.

use vstd::prelude::*;

use crate::app::actions::ActionView;
use crate::app::entries::{
    any_book_is_added_by_hand, loaded_book_is_added_by_hand, note_is_of_the_loaded_book, plays_row,
    position_is_kept_in_the_loaded_book, rating_is_of_the_loaded_book,
};
use crate::app::{entry_kept, MomentView, PlayerView};
use crate::library::db::{listened_at, moved_to, noted, rated};
use crate::library::laws::book_found;
use crate::library::rows::{has_none_under, history_has_room, stands_under};
use crate::library::tables::{
    change_book_keeps_valid, change_entry_keeps_valid, filter_from, has_book, one_book_per_id, one_book_per_path, place_of_book,
    put_bookmark_keeps_valid, put_entry_keeps_valid, without_bookmark_keeps_valid, without_entry_keeps_valid, DatabaseView,
};
use crate::library::{BookView, HistoryView};

verus! {

/// Where the entry that is shown stands.
proof fn shown_place(p: PlayerView, b: int) -> (i: int)
    requires
        plays_row(p, b),
        p.current_history is Some,
    ensures
        stands_under(p.db.history, p.db.books[b].book.path, i),
        p.db.history[i].id == p.current_history->Some_0.id,
{
    choose|i: int|
        #[trigger] stands_under(p.db.history, p.db.books[b].book.path, i) && p.db.history[i].id == p.current_history->Some_0.id
}

proof fn entry_kept_is_valid(db: DatabaseView, book: BookView, finished: bool, manual: bool, stamp: i64)
    requires
        db.valid(),
    ensures
        entry_kept(db, book, finished, manual, stamp).valid(),
{
    if db.can_put_entry(book.path) {
        put_entry_keeps_valid(db, book, finished, manual, stamp);
    }
}

proof fn stands_after_loaded(p: PlayerView, b: int, rating: u8, note: Seq<char>, at: MomentView)
    requires
        plays_row(p, b),
        history_has_room(p.db.history),
    ensures
        plays_row(p.applied(ActionView::RateBook(rating), at), b),
        plays_row(p.applied(ActionView::SetNote(note), at), b),
{
    let path = p.db.books[b].book.path;
    rating_is_of_the_loaded_book(p, b, rating, at);
    note_is_of_the_loaded_book(p, b, note, at);
    let r = p.applied(ActionView::RateBook(rating), at);
    let n = p.applied(ActionView::SetNote(note), at);
    crate::app::effects::actions_keep_to_their_own(p, ActionView::RateBook(rating), at);
    crate::app::effects::actions_keep_to_their_own(p, ActionView::SetNote(note), at);
    let i = if has_none_under(p.db.history, path) {
        p.db.history.len() as int
    } else {
        let i = choose|i: int| 0 <= i < p.db.history.len() && stands_under(p.db.history, path, i);
        assert(stands_under(p.db.history, path, i));
        i
    };
    assert(stands_under(r.db.history, path, i));
    assert(stands_under(n.db.history, path, i));
}

proof fn stands_after_adding(p: PlayerView, b: int, at: MomentView)
    requires
        plays_row(p, b),
        history_has_room(p.db.history),
    ensures
        plays_row(p.applied(ActionView::AddToHistory, at), b),
{
    let book = p.db.books[b].book;
    book_found(p.db, b);
    loaded_book_is_added_by_hand(p, b, at);
    entry_kept_is_valid(p.db, book, false, true, at.stamp);
    let after = p.applied(ActionView::AddToHistory, at);
    if p.current_history is None {
        let i = if has_none_under(p.db.history, book.path) {
            p.db.history.len() as int
        } else {
            let i = choose|i: int| 0 <= i < p.db.history.len() && stands_under(p.db.history, book.path, i);
            assert(stands_under(p.db.history, book.path, i));
            i
        };
        assert(stands_under(after.db.history, book.path, i));
    }
}

proof fn stands_after_adding_any(p: PlayerView, b: int, id: i64, at: MomentView)
    requires
        plays_row(p, b),
        history_has_room(p.db.history),
    ensures
        plays_row(p.applied(ActionView::AddBookToHistory(id), at), b),
{
    let path = p.db.books[b].book.path;
    if has_book(p.db.books, id) {
        let k = place_of_book(p.db.books, id);
        let book = p.db.books[k].book;
        book_found(p.db, k);
        any_book_is_added_by_hand(p, k, at);
        entry_kept_is_valid(p.db, book, book.finished, true, at.stamp);
        let after = p.applied(ActionView::AddBookToHistory(id), at);
        if id == p.db.books[b].book.id {
            one_book_per_id(p.db.books, k, b);
            let i = if has_none_under(p.db.history, path) {
                p.db.history.len() as int
            } else {
                let i = choose|i: int| 0 <= i < p.db.history.len() && stands_under(p.db.history, path, i);
                assert(stands_under(p.db.history, path, i));
                i
            };
            assert(stands_under(after.db.history, path, i));
        } else if p.current_history is Some {
            let i = shown_place(p, b);
            if stands_under(p.db.history, book.path, i) {
                one_book_per_path(p.db.books, k, b);
            }
            assert(after.db.history[i] == p.db.history[i]);
            assert(stands_under(after.db.history, path, i));
        }
    }
}

proof fn stands_after_removing(p: PlayerView, b: int, id: i64, at: MomentView)
    requires
        plays_row(p, b),
    ensures
        plays_row(p.applied(ActionView::RemoveHistory(id), at), b),
{
    let path = p.db.books[b].book.path;
    without_entry_keeps_valid(p.db, id);
    let after = p.applied(ActionView::RemoveHistory(id), at);
    if p.current_history is Some && p.current_history->Some_0.id != id {
        let i = shown_place(p, b);
        let f = |h: HistoryView| h.id != id;
        filter_from(p.db.history, f);
        let h = p.db.history[i];
        assert(p.db.history.contains(h) && f(h));
        let kept = p.db.history.filter(f);
        assert(kept.contains(h));
        let k = choose|k: int| 0 <= k < kept.len() && kept[k] == h;
        assert(stands_under(after.db.history, path, k) && after.db.history[k].id == h.id);
    }
}

proof fn stands_after_change(p: PlayerView, b: int, id: i64, f: spec_fn(HistoryView) -> HistoryView)
    requires
        plays_row(p, b),
        forall|h: HistoryView|
            (#[trigger] f(h)).id == h.id && f(h).book_key == h.book_key && f(h).keyed == h.keyed && (f(h).rating matches Some(
                r,
            ) ==> r <= 5 || f(h).rating == h.rating),
    ensures
        plays_row(p.with_db(p.db.change_entry(id, f)), b),
        plays_row(p.with_db(p.db.change_entry(id, f)).with_history(), b),
        plays_row(p.with_db(p.db.change_entry(id, f)).with_entry_reread(), b),
{
    let path = p.db.books[b].book.path;
    let c = p.with_db(p.db.change_entry(id, f));
    change_entry_keeps_valid(p.db, id, f);
    book_found(c.db, b);
    if p.current_history is Some {
        let i = shown_place(p, b);
        assert(stands_under(c.db.history, path, i) && c.db.history[i].id == p.db.history[i].id);
    }
    crate::library::rows::found_entry_is_stored(c.db, path);
    if c.db.entry(path) is Some {
        let h = c.db.entry(path)->Some_0;
        let i = choose|i: int| stands_under(c.db.history, path, i) && c.db.history[i] == h;
        assert(stands_under(c.db.history, path, i) && c.db.history[i].id == h.id);
    }
}

proof fn stands_after_listing(p: PlayerView, b: int, id: i64, rating: u8, note: Seq<char>, epoch: i64, at: MomentView)
    requires
        plays_row(p, b),
    ensures
        plays_row(p.applied(ActionView::RateHistory(id, rating), at), b),
        plays_row(p.applied(ActionView::SetHistoryNote(id, note), at), b),
        plays_row(p.applied(ActionView::SetHistoryDate(id, epoch), at), b),
{
    stands_after_change(p, b, id, rated(Some(rating)));
    stands_after_change(p, b, id, noted(note));
    stands_after_change(p, b, id, listened_at(epoch));
}

/// Remembering the position keeps the book loaded, and its entry, if one is shown,
/// in the history.
pub proof fn stands_after_saving(p: PlayerView, b: int, at: MomentView)
    requires
        plays_row(p, b),
        history_has_room(p.db.history),
    ensures
        plays_row(p.saved(at), b),
{
    if p.engine is Some {
        let book = p.db.books[b].book;
        let pos = p.engine->Some_0.position();
        let finished = crate::app::progress::is_finished(pos, p.total());
        position_is_kept_in_the_loaded_book(p, b, at);
        let f = moved_to(pos, finished, at.stamp);
        change_book_keeps_valid(p.db, book.id, f);
        let moved = p.db.change_book(book.id, f);
        book_found(moved, b);
        entry_kept_is_valid(moved, moved.books[b].book, true, false, at.stamp);
        let after = p.saved(at);
        if p.current_history is Some {
            let i = shown_place(p, b);
            assert(stands_under(after.db.history, book.path, i) && after.db.history[i].id == p.db.history[i].id);
        }
    }
}

proof fn stands_after_marking(p: PlayerView, b: int, id: i64, at: MomentView)
    requires
        plays_row(p, b),
    ensures
        plays_row(p.applied(ActionView::AddBookmark, at), b),
        plays_row(p.applied(ActionView::DeleteBookmark(id), at), b),
{
    let path = p.db.books[b].book.path;
    without_bookmark_keeps_valid(p.db, id);
    if p.engine is Some && p.db.can_bookmark(p.db.books[b].book.id) {
        put_bookmark_keeps_valid(p.db, p.db.books[b].book.id, p.engine->Some_0.position(), p.chapter_title());
    }
    let m = p.applied(ActionView::AddBookmark, at);
    let d = p.applied(ActionView::DeleteBookmark(id), at);
    if p.current_history is Some {
        let i = shown_place(p, b);
        assert(stands_under(m.db.history, path, i));
        assert(stands_under(d.db.history, path, i));
    }
}

proof fn stands_where_nothing_changed(p: PlayerView, after: PlayerView, b: int)
    requires
        plays_row(p, b),
        after.db.books == p.db.books,
        after.db.tracks == p.db.tracks,
        after.db.bookmarks == p.db.bookmarks,
        after.db.history == p.db.history,
        after.current_book_id == p.current_book_id,
        after.current_history == p.current_history,
    ensures
        plays_row(after, b),
{
    if p.current_history is Some {
        let i = shown_place(p, b);
        assert(stands_under(after.db.history, p.db.books[b].book.path, i));
    }
}

/// Whatever the listener does, the book that is loaded stays so, and the entry that
/// is shown for it, if any, is one that the history holds under the book's path:
/// so what is rated and noted next is that book's own entry.
pub proof fn shown_entry_stays_stored(p: PlayerView, b: int, action: ActionView, at: MomentView)
    requires
        plays_row(p, b),
        history_has_room(p.db.history),
    ensures
        plays_row(p.applied(action, at), b),
{
    match action {
        ActionView::RateBook(rating) => {
            stands_after_loaded(p, b, rating, p.search, at);
        },
        ActionView::SetNote(note) => {
            stands_after_loaded(p, b, 0, note, at);
        },
        ActionView::AddToHistory => {
            stands_after_adding(p, b, at);
        },
        ActionView::AddBookToHistory(id) => {
            stands_after_adding_any(p, b, id, at);
        },
        ActionView::RemoveHistory(id) => {
            stands_after_removing(p, b, id, at);
        },
        ActionView::RateHistory(id, rating) => {
            stands_after_listing(p, b, id, rating, p.search, 0, at);
        },
        ActionView::SetHistoryNote(id, note) => {
            stands_after_listing(p, b, id, 0, note, 0, at);
        },
        ActionView::SetHistoryDate(id, epoch) => {
            stands_after_listing(p, b, id, 0, p.search, epoch, at);
        },
        ActionView::Back => {
            stands_after_saving(p, b, at);
            stands_where_nothing_changed(p.saved(at), p.applied(action, at), b);
        },
        ActionView::AddBookmark => {
            stands_after_marking(p, b, 0, at);
        },
        ActionView::DeleteBookmark(id) => {
            stands_after_marking(p, b, id, at);
        },
        ActionView::AddFolder(_) => {
            stands_where_nothing_changed(p, p.applied(action, at), b);
        },
        ActionView::OpenBook(_) => {
            stands_where_nothing_changed(p, p.applied(action, at), b);
        },
        ActionView::ShowPlayer => {
            stands_where_nothing_changed(p, p.applied(action, at), b);
        },
        ActionView::Rescan => {
            stands_where_nothing_changed(p, p.applied(action, at), b);
        },
        ActionView::SetSort(_) => {
            stands_where_nothing_changed(p, p.applied(action, at), b);
        },
        ActionView::JumpTo(_) => {
            stands_where_nothing_changed(p, p.applied(action, at), b);
        },
        ActionView::SetSleep(_) => {
            stands_where_nothing_changed(p, p.applied(action, at), b);
        },
    }
}

} // verus!
