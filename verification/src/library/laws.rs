//! What holds of the library database from one operation to the next.

use vstd::prelude::*;

use crate::library::db::{listened_at, moved_to, noted, rated};
use crate::library::journal::{filter_none, filter_of_both, filters_apart};
use crate::library::tables::{
    distinct_tracks, filter_all, filter_from, has_book, has_entry, has_key, has_path, is_place_of_key, kept_rating,
    key_has_place, next_bookmark_id, one_book_per_id, one_book_per_path, one_first_place, place_of_book, place_of_key,
    place_of_path, put_book_keeps_valid, track_key, track_rows, without_book_keeps_valid, BookRowView, DatabaseView,
    TrackRowView, NORMAL_SPEED_BITS,
};
use crate::library::{BookView, BookmarkView, HistoryView, MetaView, TrackView};
use crate::order::{key_less, key_order, lex_less, listing, listing_exists};

verus! {

/// A book is found under its number and under its path.
pub proof fn book_found(db: DatabaseView, i: int)
    requires
        db.valid(),
        0 <= i < db.books.len(),
    ensures
        db.book(db.books[i].book.id) == Some(db.books[i].book),
        has_path(db.books, db.books[i].book.path),
        place_of_path(db.books, db.books[i].book.path) == i,
{
    let id = db.books[i].book.id;
    assert(has_book(db.books, id));
    one_book_per_id(db.books, i, place_of_book(db.books, id));
    one_book_per_path(db.books, i, place_of_path(db.books, db.books[i].book.path));
}

proof fn entry_found(db: DatabaseView, key: Seq<char>, i: int)
    requires
        is_place_of_key(db.history, key, i),
    ensures
        db.entry(key) == Some(db.history[i]),
{
    one_first_place(db.history, key, i);
}

/// A book that was put in reads back with what its files say. One that is new
/// starts at its beginning, at the normal speed.
pub proof fn book_reads_back(db: DatabaseView, path: Seq<char>, meta: MetaView, chapter_count: usize, multi: bool, now: i64)
    requires
        db.valid(),
        db.can_put_book(path),
    ensures
        ({
            let after = db.put_book(path, meta, chapter_count, multi, now);
            let b = after.book(db.id_for_path(path));
            &&& b matches Some(b)
            &&& b.path == path
            &&& b.title == meta.display_title()
            &&& b.author == meta.author
            &&& b.reader == meta.reader
            &&& b.duration == meta.length()
            &&& b.chapter_count == chapter_count
            &&& b.cover == meta.cover
            &&& multi ==> b.is_multi
            &&& !has_path(db.books, path) ==> b.position == 0 && !b.finished && b.speed_bits == NORMAL_SPEED_BITS
                && b.is_multi == multi && b.added_at == now && b.last_played is None
        }),
{
    let after = db.put_book(path, meta, chapter_count, multi, now);
    put_book_keeps_valid(db, path, meta, chapter_count, multi, now);
    if has_path(db.books, path) {
        book_found(after, place_of_path(db.books, path));
    } else {
        book_found(after, db.books.len() as int);
    }
}

/// Reading a book's files again keeps where the listener stands: position,
/// finished mark, speed, and when it was added and last played.
pub proof fn resume_state_is_kept(db: DatabaseView, path: Seq<char>, meta: MetaView, chapter_count: usize, multi: bool, now: i64)
    requires
        db.valid(),
        has_path(db.books, path),
    ensures
        ({
            let id = db.id_for_path(path);
            let before = db.book(id)->Some_0;
            let after = db.put_book(path, meta, chapter_count, multi, now).book(id)->Some_0;
            &&& after.position == before.position
            &&& after.finished == before.finished
            &&& after.speed_bits == before.speed_bits
            &&& after.added_at == before.added_at
            &&& after.last_played == before.last_played
        }),
{
    let i = place_of_path(db.books, path);
    book_found(db, i);
    put_book_keeps_valid(db, path, meta, chapter_count, multi, now);
    book_found(db.put_book(path, meta, chapter_count, multi, now), i);
}

/// Putting a book in leaves every other book as it was.
pub proof fn other_books_are_kept(db: DatabaseView, path: Seq<char>, meta: MetaView, chapter_count: usize, multi: bool, now: i64, id: i64)
    requires
        db.valid(),
        db.can_put_book(path),
        id != db.id_for_path(path),
    ensures
        db.put_book(path, meta, chapter_count, multi, now).book(id) == db.book(id),
{
    let after = db.put_book(path, meta, chapter_count, multi, now);
    put_book_keeps_valid(db, path, meta, chapter_count, multi, now);
    if has_book(db.books, id) {
        let k = place_of_book(db.books, id);
        assert(after.books[k] == db.books[k]);
        book_found(after, k);
        book_found(db, k);
    } else if has_book(after.books, id) {
        let k = place_of_book(after.books, id);
        assert(k < db.books.len());
        assert(db.books[k].book.id == id);
    }
}

/// Reading the same files twice comes to the same as reading them once.
pub proof fn reading_again_changes_nothing(db: DatabaseView, path: Seq<char>, meta: MetaView, chapter_count: usize, multi: bool, now: i64, later: i64)
    requires
        db.valid(),
        db.can_put_book(path),
    ensures
        ({
            let once = db.put_book(path, meta, chapter_count, multi, now);
            &&& once.put_book(path, meta, chapter_count, multi, later) == once
            &&& once.id_for_path(path) == db.id_for_path(path)
        }),
{
    let once = db.put_book(path, meta, chapter_count, multi, now);
    put_book_keeps_valid(db, path, meta, chapter_count, multi, now);
    let i = if has_path(db.books, path) { place_of_path(db.books, path) } else { db.books.len() as int };
    book_found(once, i);
    let twice = once.put_book(path, meta, chapter_count, multi, later);
    assert(twice.books[i] =~= once.books[i]);
    assert(twice.books =~= once.books);
}

/// A position that was remembered reads back, with the time of listening; what
/// the files say stays.
pub proof fn position_reads_back(db: DatabaseView, id: i64, position: nat, finished: bool, now: i64)
    requires
        db.valid(),
        has_book(db.books, id),
    ensures
        db.change_book(id, moved_to(position, finished, now)).book(id) == Some(
            BookView { position, finished, last_played: Some(now), ..db.book(id)->Some_0 },
        ),
{
    let after = db.change_book(id, moved_to(position, finished, now));
    let k = place_of_book(db.books, id);
    crate::library::tables::change_book_keeps_valid(db, id, moved_to(position, finished, now));
    assert(after.books[k].book.id == id);
    book_found(after, k);
}

proof fn filters_against<T>(s: Seq<T>, p: spec_fn(T) -> bool, q: spec_fn(T) -> bool)
    requires
        forall|x: T| #[trigger] q(x) ==> !p(x),
    ensures
        s.filter(p).filter(q) == Seq::<T>::empty(),
    decreases s.len(),
{
    reveal(Seq::filter);
    if s.len() > 0 {
        filters_against(s.drop_last(), p, q);
        let kept = s.drop_last().filter(p);
        if p(s.last()) {
            assert(kept.push(s.last()).drop_last() =~= kept);
        }
    }
}

/// Removing a book removes it with its tracks and bookmarks, and nothing else:
/// the history in particular stays whole.
pub proof fn removal_spares_history(db: DatabaseView, id: i64)
    requires
        db.valid(),
    ensures
        ({
            let after = db.without_book(id);
            &&& after.book(id) is None
            &&& after.tracks_in(id).len() == 0
            &&& after.bookmarks_in(id).len() == 0
            &&& after.history == db.history
            &&& after.settings == db.settings
            &&& after.locations == db.locations
            &&& forall|x: i64| x != id ==> #[trigger] after.book(x) == db.book(x)
            &&& forall|x: i64| x != id ==> #[trigger] after.tracks_in(x) == db.tracks_in(x)
            &&& forall|x: i64| x != id ==> #[trigger] after.bookmarks_in(x) == db.bookmarks_in(x)
        }),
{
    let after = db.without_book(id);
    without_book_keeps_valid(db, id);
    let pt = |t: TrackRowView| t.book_id != id;
    let pm = |b: BookmarkView| b.book_id != id;
    let pb = |r: BookRowView| r.book.id != id;
    filters_against(db.tracks, pt, |t: TrackRowView| t.book_id == id);
    filters_against(db.bookmarks, pm, |b: BookmarkView| b.book_id == id);
    filter_from(db.books, pb);
    assert forall|x: i64| x != id implies #[trigger] after.book(x) == db.book(x) by {
        if has_book(db.books, x) {
            let k = place_of_book(db.books, x);
            assert(db.books.contains(db.books[k]));
            assert(after.books.contains(db.books[k]));
            let m = choose|m: int| 0 <= m < after.books.len() && after.books[m] == db.books[k];
            book_found(after, m);
            book_found(db, k);
        } else if has_book(after.books, x) {
            let m = place_of_book(after.books, x);
            assert(db.books.contains(after.books[m]));
            let k = choose|k: int| 0 <= k < db.books.len() && db.books[k] == after.books[m];
            assert(db.books[k].book.id == x);
        }
    }
    assert forall|x: i64| x != id implies #[trigger] after.tracks_in(x) == db.tracks_in(x) by {
        filters_apart(db.tracks, pt, |t: TrackRowView| t.book_id == x);
    }
    assert forall|x: i64| x != id implies #[trigger] after.bookmarks_in(x) == db.bookmarks_in(x) by {
        filters_apart(db.bookmarks, pm, |b: BookmarkView| b.book_id == x);
    }
}

/// A history entry that was kept reads back with what the book says and the
/// time of listening.
pub proof fn entry_reads_back(db: DatabaseView, book: BookView, finished: bool, manual: bool, now: i64)
    requires
        db.valid(),
        db.can_put_entry(book.path),
    ensures
        ({
            let e = db.put_entry(book, finished, manual, now).entry(book.path);
            &&& e matches Some(e)
            &&& e.id == db.id_for_key(book.path)
            &&& e.title == book.title
            &&& e.author == book.author
            &&& e.reader == book.reader
            &&& e.cover == book.cover
            &&& e.last_played == Some(now)
            &&& e.first_played is Some
            &&& finished ==> e.finished
            &&& manual ==> e.added_manually
            &&& !has_key(db.history, book.path) ==> e.rating is None && e.note.len() == 0 && e.first_played == Some(now)
                && e.finished == finished && e.added_manually == manual
        }),
{
    let after = db.put_entry(book, finished, manual, now);
    if has_key(db.history, book.path) {
        key_has_place(db.history, book.path);
        entry_found(after, book.path, place_of_key(db.history, book.path));
    } else {
        entry_found(after, book.path, db.history.len() as int);
    }
}

/// Listening again keeps the rating, the note and the first listening of an
/// entry, and its two marks only ever turn on.
pub proof fn listening_again_keeps_rating_and_note(db: DatabaseView, book: BookView, finished: bool, manual: bool, now: i64)
    requires
        db.valid(),
        has_key(db.history, book.path),
    ensures
        ({
            let before = db.entry(book.path)->Some_0;
            let after = db.put_entry(book, finished, manual, now).entry(book.path)->Some_0;
            &&& after.id == before.id
            &&& after.rating == before.rating
            &&& after.note == before.note
            &&& before.first_played is Some ==> after.first_played == before.first_played
            &&& before.finished ==> after.finished
            &&& before.added_manually ==> after.added_manually
        }),
{
    let i = place_of_key(db.history, book.path);
    key_has_place(db.history, book.path);
    entry_found(db, book.path, i);
    entry_found(db.put_entry(book, finished, manual, now), book.path, i);
}

/// Keeping an entry leaves every other entry as it was, and the books too.
pub proof fn other_entries_are_kept(db: DatabaseView, book: BookView, finished: bool, manual: bool, now: i64, key: Seq<char>)
    requires
        db.valid(),
        db.can_put_entry(book.path),
        key != book.path,
    ensures
        db.put_entry(book, finished, manual, now).entry(key) == db.entry(key),
        db.put_entry(book, finished, manual, now).books == db.books,
{
    let after = db.put_entry(book, finished, manual, now);
    if has_key(db.history, book.path) {
        key_has_place(db.history, book.path);
    }
    if has_key(db.history, key) {
        let k = place_of_key(db.history, key);
        key_has_place(db.history, key);
        assert(after.history[k] == db.history[k]);
        assert forall|j: int| 0 <= j < k implies !(#[trigger] after.history[j]).is_of(key) by {
            assert(after.history[j].is_of(key) == db.history[j].is_of(key));
        }
        entry_found(after, key, k);
        entry_found(db, key, k);
    } else if has_key(after.history, key) {
        let k = choose|k: int| 0 <= k < after.history.len() && (#[trigger] after.history[k]).is_of(key);
        assert(k < db.history.len());
        assert(db.history[k].is_of(key));
    }
}

proof fn changed_entry_found(db: DatabaseView, key: Seq<char>, id: i64, f: spec_fn(HistoryView) -> HistoryView)
    requires
        has_key(db.history, key),
        db.history[place_of_key(db.history, key)].id == id,
        forall|h: HistoryView| (#[trigger] f(h)).book_key == h.book_key && f(h).keyed == h.keyed,
    ensures
        db.change_entry(id, f).entry(key) == Some(f(db.history[place_of_key(db.history, key)])),
{
    let i = place_of_key(db.history, key);
    let after = db.change_entry(id, f);
    key_has_place(db.history, key);
    assert forall|j: int| 0 <= j < i implies !(#[trigger] after.history[j]).is_of(key) by {
        assert(after.history[j].is_of(key) == db.history[j].is_of(key));
    }
    entry_found(after, key, i);
}

/// A rating, a note and a date that were set read back, the rating as five
/// stars at most, and change nothing else of the entry.
pub proof fn entry_changes_read_back(db: DatabaseView, key: Seq<char>, rating: Option<u8>, note: Seq<char>, epoch: i64)
    requires
        db.valid(),
        has_key(db.history, key),
    ensures
        ({
            let e = db.entry(key)->Some_0;
            &&& db.change_entry(e.id, rated(rating)).entry(key) == Some(
                HistoryView { rating: kept_rating(rating), ..e },
            )
            &&& db.change_entry(e.id, noted(note)).entry(key) == Some(HistoryView { note, ..e })
            &&& db.change_entry(e.id, listened_at(epoch)).entry(key) == Some(
                HistoryView { last_played: Some(epoch), ..e },
            )
        }),
{
    let i = place_of_key(db.history, key);
    key_has_place(db.history, key);
    entry_found(db, key, i);
    let id = db.history[i].id;
    changed_entry_found(db, key, id, rated(rating));
    changed_entry_found(db, key, id, noted(note));
    changed_entry_found(db, key, id, listened_at(epoch));
}

/// A history entry that was removed is gone, and the others are not.
pub proof fn removed_entry_is_gone(db: DatabaseView, id: i64)
    requires
        db.valid(),
    ensures
        !has_entry(db.without_entry(id).history, id),
        forall|h: HistoryView|
            h.id != id && #[trigger] db.history.contains(h) ==> db.without_entry(id).history.contains(h),
        db.without_entry(id).books == db.books,
{
    let p = |h: HistoryView| h.id != id;
    filter_from(db.history, p);
    let after = db.without_entry(id).history;
    if has_entry(after, id) {
        let k = choose|k: int| 0 <= k < after.len() && (#[trigger] after[k]).id == id;
        assert(p(after[k]));
    }
}

/// Removing a bookmark that was just set leaves the database as it was.
pub proof fn removing_undoes_setting_a_bookmark(db: DatabaseView, book_id: i64, position: nat, label: Seq<char>)
    requires
        db.valid(),
        db.can_bookmark(book_id),
    ensures
        ({
            let id = next_bookmark_id(db.bookmarks) as i64;
            let after = db.put_bookmark(book_id, position, label);
            &&& after.bookmarks_in(book_id).contains(BookmarkView { id, book_id, position, label })
            &&& after.without_bookmark(id) == db
        }),
{
    let id = next_bookmark_id(db.bookmarks) as i64;
    let after = db.put_bookmark(book_id, position, label);
    let mark = BookmarkView { id, book_id, position, label };
    assert(after.bookmarks[db.bookmarks.len() as int] == mark);
    filter_from(after.bookmarks, |b: BookmarkView| b.book_id == book_id);
    assert(after.bookmarks.contains(mark));
    let p = |b: BookmarkView| b.id != id;
    assert forall|i: int| 0 <= i < db.bookmarks.len() implies p(#[trigger] db.bookmarks[i]) by {
        if i < db.bookmarks.len() - 1 {
            assert(db.bookmarks[i].id < db.bookmarks[db.bookmarks.len() - 1].id);
        }
    }
    filter_all(db.bookmarks, p);
    reveal(Seq::filter);
    assert(after.bookmarks.drop_last() =~= db.bookmarks);
    assert(after.without_bookmark(id) =~= db);
}

/// The tracks of a multi-file book whose numbers differ read back as they were
/// put in, each once, in the order of their numbers; and those of the other books
/// are kept.
pub proof fn tracks_read_back(db: DatabaseView, path: Seq<char>, meta: MetaView, tracks: Seq<TrackView>, now: i64, other: i64)
    requires
        db.valid(),
        db.can_put_book(path),
        forall|i: int, j: int| 0 <= i < j < tracks.len() ==> (#[trigger] tracks[i]).idx != (#[trigger] tracks[j]).idx,
        other != db.id_for_path(path),
    ensures
        ({
            let id = db.id_for_path(path);
            let after = db.put_multi_book(path, meta, tracks, now);
            let listed = listing(after.tracks_in(id), |t: TrackView| track_key(t));
            &&& distinct_tracks(tracks) == tracks.len()
            &&& after.tracks_in(id) == tracks
            &&& listed.len() == tracks.len()
            &&& forall|i: int, j: int| 0 <= i < j < listed.len() ==> (#[trigger] listed[i]).idx < (#[trigger] listed[j]).idx
            &&& forall|t: TrackView| #[trigger] listed.contains(t) == tracks.contains(t)
            &&& after.tracks_in(other) == db.tracks_in(other)
        }),
{
    let id = db.id_for_path(path);
    let after = db.put_multi_book(path, meta, tracks, now);
    differing_is_distinct(tracks);
    assert(tracks.take(tracks.len() as int) =~= tracks);
    let p = |t: TrackRowView| t.book_id != id;
    let q = |t: TrackRowView| t.book_id == id;
    let o = |t: TrackRowView| t.book_id == other;
    let rows = track_rows(id, tracks);
    let kept = db.tracks.filter(p);
    filters_against(db.tracks, p, q);
    filters_apart(db.tracks, p, o);
    filter_all(rows, q);
    filter_none(rows, o);
    filter_of_both(kept, rows, q);
    filter_of_both(kept, rows, o);
    assert(Seq::<TrackRowView>::empty() + rows =~= rows);
    assert(db.tracks.filter(o) + Seq::<TrackRowView>::empty() =~= db.tracks.filter(o));
    let f = |t: TrackRowView| t.track;
    assert(rows.map_values(f) =~= tracks);
    assert(after.tracks_in(id) == tracks);
    tracks_are_listed(tracks);
}

proof fn tracks_are_listed(tracks: Seq<TrackView>)
    requires
        forall|i: int, j: int| 0 <= i < j < tracks.len() ==> (#[trigger] tracks[i]).idx != (#[trigger] tracks[j]).idx,
    ensures
        ({
            let listed = listing(tracks, |t: TrackView| track_key(t));
            &&& listed.len() == tracks.len()
            &&& forall|i: int, j: int| 0 <= i < j < listed.len() ==> (#[trigger] listed[i]).idx < (#[trigger] listed[j]).idx
            &&& forall|t: TrackView| #[trigger] listed.contains(t) == tracks.contains(t)
        }),
{
    let key = |t: TrackView| track_key(t);
    let listed = listing(tracks, key);
    assert forall|i: int, j: int|
        0 <= i < tracks.len() && 0 <= j < tracks.len() && key(#[trigger] tracks[i]) == key(#[trigger] tracks[j]) implies tracks[i]
        == tracks[j] by {
        assert(key(tracks[i]).first[0] == key(tracks[j]).first[0]);
    }
    listing_exists(tracks, key);
    assert forall|i: int, j: int| 0 <= i < j < listed.len() implies (#[trigger] listed[i]).idx < (#[trigger] listed[j]).idx by {
        let a = key(listed[i]);
        let b = key(listed[j]);
        assert(key_less(a, b));
        if !(a.first[0] < b.first[0]) {
            assert(tracks.contains(listed[i]) && tracks.contains(listed[j]));
            let m = choose|m: int| 0 <= m < tracks.len() && tracks[m] == listed[i];
            let n = choose|n: int| 0 <= n < tracks.len() && tracks[n] == listed[j];
            key_order(a, b);
            assert(lex_less(a.first, b.first) || a.first == b.first);
        }
    }
    assert forall|t: TrackView| #[trigger] listed.contains(t) == tracks.contains(t) by {
        if listed.contains(t) {
            let k = choose|k: int| 0 <= k < listed.len() && listed[k] == t;
            assert(tracks.contains(listed[k]));
        }
        if tracks.contains(t) {
            let k = choose|k: int| 0 <= k < tracks.len() && tracks[k] == t;
            assert(listed.contains(tracks[k]));
        }
    }
    assert(listed.no_duplicates());
    assert(tracks.no_duplicates());
    listed.unique_seq_to_set();
    tracks.unique_seq_to_set();
    assert(listed.to_set() =~= tracks.to_set());
}

proof fn differing_is_distinct(tracks: Seq<TrackView>)
    requires
        forall|i: int, j: int| 0 <= i < j < tracks.len() ==> (#[trigger] tracks[i]).idx != (#[trigger] tracks[j]).idx,
    ensures
        distinct_tracks(tracks) == tracks.len(),
    decreases tracks.len(),
{
    if tracks.len() > 0 {
        let t = tracks.drop_last();
        assert forall|i: int, j: int| 0 <= i < j < t.len() implies (#[trigger] t[i]).idx != (#[trigger] t[j]).idx by {
            assert(tracks[i].idx != tracks[j].idx);
        }
        differing_is_distinct(t);
    }
}

} // verus!
