//! What each change of the library does to its rows, row by row.

use vstd::prelude::*;

use crate::library::db::{
    book_put, entry_put, listened_at, moved_to, multi_book_put, noted, not_a_number, played_at, rated, stamp_of, DbError,
};
use crate::library::tables::{
    distinct_tracks, has_key, has_path, key_has_place, one_book_per_path, place_of_key, place_of_path,
    put_entry_keeps_valid, DatabaseView,
};
use crate::library::{BookView, BookmarkView, HistoryView, MetaView, TrackView};

verus! {

// ---- history ---------------------------------------------------------------

/// Whether the history entry at a place is the one of the book at this path.
pub open spec fn stands_under(history: Seq<HistoryView>, path: Seq<char>, i: int) -> bool {
    0 <= i < history.len() && history[i].keyed && history[i].book_key == path
}

/// Whether the history has no entry of the book at this path.
pub open spec fn has_none_under(history: Seq<HistoryView>, path: Seq<char>) -> bool {
    forall|i: int| 0 <= i < history.len() ==> !stands_under(history, path, i)
}

/// Whether there is a number for one more history entry.
pub open spec fn history_has_room(history: Seq<HistoryView>) -> bool {
    forall|i: int| 0 <= i < history.len() ==> (#[trigger] history[i]).id < i64::MAX
}

/// Whether an entry says of its book what the book says of itself.
pub open spec fn tells_of(h: HistoryView, book: BookView) -> bool {
    &&& h.keyed
    &&& h.book_key == book.path
    &&& h.title == book.title
    &&& h.author == book.author
    &&& h.reader == book.reader
    &&& h.cover == book.cover
}

/// Where a book has an entry, that is the one that is found under its path, and
/// there is no other.
pub proof fn one_entry_per_book(db: DatabaseView, path: Seq<char>, i: int)
    requires
        db.valid(),
        stands_under(db.history, path, i),
    ensures
        db.entry(path) == Some(db.history[i]),
        has_key(db.history, path),
        place_of_key(db.history, path) == i,
        forall|j: int| j != i ==> !stands_under(db.history, path, j),
{
    let k = place_of_key(db.history, path);
    assert(db.history[i].is_of(path));
    key_has_place(db.history, path);
    if k < i {
        assert(crate::library::tables::keys_fit(db.history[k], db.history[i]));
    } else if i < k {
        assert(crate::library::tables::keys_fit(db.history[i], db.history[k]));
    }
    assert forall|j: int| j != i implies !stands_under(db.history, path, j) by {
        if stands_under(db.history, path, j) {
            if j < i {
                assert(crate::library::tables::keys_fit(db.history[j], db.history[i]));
            } else {
                assert(crate::library::tables::keys_fit(db.history[i], db.history[j]));
            }
        }
    }
}

/// A book without an entry is found to have none.
pub proof fn no_entry_is_found(db: DatabaseView, path: Seq<char>)
    requires
        has_none_under(db.history, path),
    ensures
        db.entry(path) is None,
        !has_key(db.history, path),
{
    if has_key(db.history, path) {
        let i = choose|i: int| 0 <= i < db.history.len() && (#[trigger] db.history[i]).is_of(path);
        assert(stands_under(db.history, path, i));
    }
}

/// What is found under a path is one of the entries, kept under that path; and
/// where nothing is found there is none.
pub proof fn found_entry_is_stored(db: DatabaseView, path: Seq<char>)
    ensures
        db.entry(path) matches Some(h) ==> exists|i: int| stands_under(db.history, path, i) && db.history[i] == h,
        db.entry(path) is None ==> has_none_under(db.history, path),
{
    if has_key(db.history, path) {
        key_has_place(db.history, path);
        let i = place_of_key(db.history, path);
        assert(stands_under(db.history, path, i));
    } else {
        assert forall|i: int| 0 <= i < db.history.len() implies !stands_under(db.history, path, i) by {
            if stands_under(db.history, path, i) {
                assert(db.history[i].is_of(path));
            }
        }
    }
}

/// A book that has no entry gets one, the last: it says what the book says, is not
/// rated and has no note, was first and last listened to at that time, and has
/// the two marks as asked. All other entries stay.
pub proof fn first_entry_is_made(db: DatabaseView, book: BookView, finished: bool, manual: bool, now: i64)
    requires
        db.valid(),
        has_none_under(db.history, book.path),
        history_has_room(db.history),
    ensures
        ({
            let after = db.put_entry(book, finished, manual, now).history;
            let e = after.last();
            &&& after.len() == db.history.len() + 1
            &&& after.drop_last() == db.history
            &&& tells_of(e, book)
            &&& e.rating is None && e.note.len() == 0
            &&& e.first_played == Some(now) && e.last_played == Some(now)
            &&& e.finished == finished && e.added_manually == manual
            &&& forall|i: int| 0 <= i < db.history.len() ==> (#[trigger] db.history[i]).id < e.id
        }),
        db.can_put_entry(book.path),
        db.put_entry(book, finished, manual, now).valid(),
{
    no_entry_is_found(db, book.path);
    let n = db.history.len();
    if n > 0 {
        assert(db.history[n - 1].id < i64::MAX);
    }
    let after = db.put_entry(book, finished, manual, now).history;
    assert(after.drop_last() =~= db.history);
    assert forall|i: int| 0 <= i < n implies (#[trigger] db.history[i]).id < after.last().id by {
        if i < n - 1 {
            assert(db.history[i].id < db.history[n - 1].id);
        }
    }
    put_entry_keeps_valid(db, book, finished, manual, now);
}

/// A book that has an entry keeps it: the entry says what the book says now and
/// was last listened to at that time; its rating, its note and when it was first
/// listened to stay; each mark is on if it was or is asked for. All other entries
/// stay.
pub proof fn entry_is_kept_up(db: DatabaseView, book: BookView, finished: bool, manual: bool, now: i64, i: int)
    requires
        db.valid(),
        stands_under(db.history, book.path, i),
    ensures
        ({
            let after = db.put_entry(book, finished, manual, now).history;
            let h = db.history[i];
            let e = after[i];
            &&& after.len() == db.history.len()
            &&& forall|j: int| 0 <= j < after.len() && j != i ==> #[trigger] after[j] == db.history[j]
            &&& tells_of(e, book)
            &&& e.id == h.id
            &&& e.rating == h.rating && e.note == h.note
            &&& e.last_played == Some(now)
            &&& h.first_played is Some ==> e.first_played == h.first_played
            &&& h.first_played is None ==> e.first_played == Some(now)
            &&& e.finished <==> h.finished || finished
            &&& e.added_manually <==> h.added_manually || manual
        }),
        db.can_put_entry(book.path),
        db.put_entry(book, finished, manual, now).valid(),
{
    one_entry_per_book(db, book.path, i);
    put_entry_keeps_valid(db, book, finished, manual, now);
}

/// Rating an entry gives it that many stars, five at most, or none; noting and
/// dating it give it that note and that time of listening. Nothing else of the
/// entry changes, and no other entry.
pub proof fn only_that_entry_changes(db: DatabaseView, id: i64, rating: Option<u8>, note: Seq<char>, epoch: i64, i: int)
    requires
        0 <= i < db.history.len(),
    ensures
        ({
            let h = db.history[i];
            let a = db.change_entry(id, rated(rating)).history[i];
            let b = db.change_entry(id, noted(note)).history[i];
            let c = db.change_entry(id, listened_at(epoch)).history[i];
            &&& h.id != id ==> a == h && b == h && c == h
            &&& h.id == id ==> {
                &&& a == (HistoryView { rating: a.rating, ..h })
                &&& rating is None ==> a.rating is None
                &&& rating is Some && rating->Some_0 <= 5 ==> a.rating == rating
                &&& rating is Some && rating->Some_0 > 5 ==> a.rating == Some(5u8)
                &&& b == (HistoryView { note, ..h })
                &&& c == (HistoryView { last_played: Some(epoch), ..h })
            }
        }),
        db.change_entry(id, rated(rating)).history.len() == db.history.len(),
        db.change_entry(id, noted(note)).history.len() == db.history.len(),
        db.change_entry(id, listened_at(epoch)).history.len() == db.history.len(),
{
}

// ---- books -----------------------------------------------------------------

/// Reading the files of a book again takes over what they say; the book keeps its
/// number, where the listener stands, whether it is finished, its speed, when it
/// was added and last played; one of several files stays one. No other book
/// changes.
pub proof fn book_is_read_again(db: DatabaseView, i: int, meta: MetaView, chapter_count: usize, multi: bool, now: i64)
    requires
        db.valid(),
        0 <= i < db.books.len(),
    ensures
        ({
            let r = db.books[i];
            let after = db.put_book(r.book.path, meta, chapter_count, multi, now);
            let a = after.books[i];
            &&& after.books.len() == db.books.len()
            &&& forall|j: int| 0 <= j < after.books.len() && j != i ==> #[trigger] after.books[j] == db.books[j]
            &&& a.book.id == r.book.id && a.book.path == r.book.path
            &&& a.book.position == r.book.position && a.book.finished == r.book.finished
            &&& a.book.speed_bits == r.book.speed_bits
            &&& a.book.added_at == r.book.added_at && a.book.last_played == r.book.last_played
            &&& a.book.title == meta.display_title()
            &&& a.book.author == meta.author && a.book.reader == meta.reader && a.book.cover == meta.cover
            &&& a.album == meta.album
            &&& a.book.chapter_count == chapter_count
            &&& meta.duration is Some ==> a.book.duration == meta.duration->Some_0
            &&& meta.duration is None ==> a.book.duration == 0
            &&& a.book.is_multi <==> r.book.is_multi || multi
            &&& after.history == db.history && after.bookmarks == db.bookmarks && after.tracks == db.tracks
        }),
{
    let path = db.books[i].book.path;
    assert(has_path(db.books, path));
    one_book_per_path(db.books, i, place_of_path(db.books, path));
}

/// Putting a book in gives the number under which it then stands at its path, with
/// one chapter for each that its file has. It fails only where the book is new and
/// the numbers are used up, and then changes nothing.
pub proof fn put_book_has_its_number(
    before: DatabaseView,
    path: Seq<char>,
    meta: MetaView,
    now: i64,
    after: DatabaseView,
    r: Result<i64, DbError>,
)
    requires
        before.valid(),
        meta.chapters.len() <= usize::MAX,
        book_put(before, path, meta, now, after, r),
    ensures
        r matches Ok(id) ==> exists|k: int|
            0 <= k < after.books.len() && (#[trigger] after.books[k]).book.id == id && after.books[k].book.path == path
                && after.books[k].book.chapter_count == meta.chapters.len() && after.books[k].book.title == meta.display_title(),
        r matches Ok(id) ==> forall|k: int|
            0 <= k < before.books.len() && (#[trigger] before.books[k]).book.path == path ==> before.books[k].book.id == id
                && after.books.len() == before.books.len(),
        r is Err ==> after == before && r == Err::<i64, DbError>(DbError::Full) && before.books.len() > 0
            && before.books.last().book.id == i64::MAX,
        r is Err ==> forall|k: int| 0 <= k < before.books.len() ==> (#[trigger] before.books[k]).book.path != path,
{
    if r is Ok {
        if has_path(before.books, path) {
            let i = place_of_path(before.books, path);
            assert(after.books[i].book.path == path && after.books[i].book.id == r->Ok_0);
            assert forall|k: int| 0 <= k < before.books.len() && (#[trigger] before.books[k]).book.path == path implies before.books[k].book.id
                == r->Ok_0 && after.books.len() == before.books.len() by {
                one_book_per_path(before.books, k, i);
            }
        } else {
            let n = before.books.len() as int;
            assert(after.books[n].book.path == path && after.books[n].book.id == r->Ok_0);
        }
    }
}

proof fn repeated_number(tracks: Seq<TrackView>)
    ensures
        distinct_tracks(tracks) <= tracks.len(),
        distinct_tracks(tracks) == tracks.len() ==> forall|i: int, j: int|
            0 <= i < j < tracks.len() ==> (#[trigger] tracks[i]).idx != (#[trigger] tracks[j]).idx,
        (forall|i: int, j: int| 0 <= i < j < tracks.len() ==> (#[trigger] tracks[i]).idx != (#[trigger] tracks[j]).idx)
            ==> distinct_tracks(tracks) == tracks.len(),
    decreases tracks.len(),
{
    if tracks.len() > 0 {
        let t = tracks.drop_last();
        repeated_number(t);
        let n = tracks.len() - 1;
        assert(forall|i: int| 0 <= i < n ==> t[i] == tracks[i]);
        if distinct_tracks(tracks) == tracks.len() {
            assert forall|i: int, j: int| 0 <= i < j < tracks.len() implies (#[trigger] tracks[i]).idx != (#[trigger] tracks[j]).idx by {
                if j < n {
                    assert(t[i].idx != t[j].idx);
                }
            }
        }
        if forall|i: int, j: int| 0 <= i < j < tracks.len() ==> (#[trigger] tracks[i]).idx != (#[trigger] tracks[j]).idx {
            assert forall|i: int, j: int| 0 <= i < j < t.len() implies (#[trigger] t[i]).idx != (#[trigger] t[j]).idx by {
                assert(tracks[i].idx != tracks[j].idx);
            }
            assert forall|j: int| 0 <= j < n implies (#[trigger] tracks[j]).idx != tracks.last().idx by {
                assert(tracks[j].idx != tracks[n].idx);
            }
        }
    }
}

/// Putting a book of several files in fails where two of its tracks share a
/// number, or where it is new and the numbers are used up; otherwise it gives the
/// number of the book.
pub proof fn repeated_tracks_are_turned_down(
    before: DatabaseView,
    path: Seq<char>,
    meta: MetaView,
    tracks: Seq<TrackView>,
    now: i64,
    after: DatabaseView,
    r: Result<i64, DbError>,
)
    requires
        before.valid(),
        multi_book_put(before, path, meta, tracks, now, after, r),
    ensures
        ({
            let repeated = exists|i: int, j: int|
                0 <= i < j < tracks.len() && (#[trigger] tracks[i]).idx == (#[trigger] tracks[j]).idx;
            let known = exists|k: int| 0 <= k < before.books.len() && (#[trigger] before.books[k]).book.path == path;
            let full = !known && before.books.len() > 0 && before.books.last().book.id == i64::MAX;
            &&& full ==> r == Err::<i64, DbError>(DbError::Full) && after == before
            &&& !full && repeated ==> r == Err::<i64, DbError>(DbError::RepeatedTrack)
            &&& !full && !repeated ==> r is Ok && exists|k: int|
                0 <= k < after.books.len() && (#[trigger] after.books[k]).book.id == r->Ok_0 && after.books[k].book.path == path
                    && after.books[k].book.is_multi
        }),
{
    repeated_number(tracks);
    if before.can_put_book(path) {
        let put = before.put_book(path, meta, tracks.len() as usize, true, now);
        let k = if has_path(before.books, path) { place_of_path(before.books, path) } else { before.books.len() as int };
        assert(after.books == put.books);
        assert(after.books[k].book.path == path && after.books[k].book.id == before.id_for_path(path));
    }
}

/// Keeping an entry fails only where the book has none and the numbers are used
/// up, and then changes nothing.
pub proof fn entry_fails_when_full(
    before: DatabaseView,
    book: BookView,
    finished: bool,
    manual: bool,
    now: i64,
    after: DatabaseView,
    r: Result<(), DbError>,
)
    requires
        entry_put(before, book, finished, manual, now, after, r),
    ensures
        ({
            let full = has_none_under(before.history, book.path) && before.history.len() > 0 && before.history.last().id
                == i64::MAX;
            &&& full ==> r == Err::<(), DbError>(DbError::Full) && after == before
            &&& !full ==> r is Ok && !has_none_under(after.history, book.path)
        }),
{
    let n = before.history.len() as int;
    if has_none_under(before.history, book.path) {
        no_entry_is_found(before, book.path);
        if before.can_put_entry(book.path) {
            assert(stands_under(after.history, book.path, n));
        }
    } else {
        let i = choose|i: int| 0 <= i < n && stands_under(before.history, book.path, i);
        assert(before.history[i].is_of(book.path));
        assert(has_key(before.history, book.path));
        key_has_place(before.history, book.path);
        assert(stands_under(after.history, book.path, place_of_key(before.history, book.path)));
    }
}

/// A reading of the clock is the time itself, as long as that fits; a clock before
/// the epoch reads as the epoch.
pub proof fn clock_is_read(clock: Option<u64>)
    ensures
        clock is None ==> stamp_of(clock) == 0,
        clock is Some && clock->Some_0 < 0x8000_0000_0000_0000 ==> stamp_of(clock) == clock->Some_0,
        clock is Some && clock->Some_0 >= 0x8000_0000_0000_0000 ==> stamp_of(clock) < 0 && stamp_of(clock)
            + 0x1_0000_0000_0000_0000 == clock->Some_0,
{
}

/// Remembering a position, and choosing a speed, change that of the book and when
/// it was played, and no other book.
pub proof fn only_that_book_changes(db: DatabaseView, id: i64, position: nat, finished: bool, now: i64, speed_bits: u32, i: int)
    requires
        0 <= i < db.books.len(),
    ensures
        ({
            let r = db.books[i];
            let a = db.change_book(id, moved_to(position, finished, now)).books[i];
            let b = db.change_book(id, played_at(speed_bits)).books[i];
            &&& r.book.id != id ==> a == r && b == r
            &&& r.book.id == id ==> {
                &&& a.album == r.album && b.album == r.album
                &&& a.book == (BookView { position, finished, last_played: Some(now), ..r.book })
                &&& b.book == (BookView { speed_bits, ..r.book })
            }
        }),
        db.change_book(id, moved_to(position, finished, now)).books.len() == db.books.len(),
        db.change_book(id, played_at(speed_bits)).books.len() == db.books.len(),
{
}

/// The bits of a 32-bit float stand for no number if and only if its exponent is
/// the highest and its fraction is not zero, whatever its sign.
pub proof fn no_number(bits: u32)
    ensures
        not_a_number(bits) <==> (bits >> 23) & 0xff == 0xff && bits & 0x7f_ffff != 0,
{
    assert((bits % 0x8000_0000 > 0x7f80_0000) == ((bits >> 23) & 0xff == 0xff && bits & 0x7f_ffff != 0)) by (bit_vector);
}

// ---- bookmarks -------------------------------------------------------------

/// A bookmark that is set is the last, with a number above all others; what was
/// there stays. One that is removed is gone, and no other.
pub proof fn only_that_bookmark_changes(db: DatabaseView, book_id: i64, position: nat, label: Seq<char>, id: i64)
    requires
        db.valid(),
        forall|k: int| 0 <= k < db.bookmarks.len() ==> (#[trigger] db.bookmarks[k]).id < i64::MAX,
    ensures
        ({
            let set = db.put_bookmark(book_id, position, label).bookmarks;
            let m = set.last();
            &&& set.len() == db.bookmarks.len() + 1
            &&& set.drop_last() == db.bookmarks
            &&& m.book_id == book_id && m.position == position && m.label == label
            &&& forall|k: int| 0 <= k < db.bookmarks.len() ==> (#[trigger] db.bookmarks[k]).id < m.id
        }),
        forall|m: BookmarkView|
            #[trigger] db.without_bookmark(id).bookmarks.contains(m) <==> db.bookmarks.contains(m) && m.id != id,
{
    let set = db.put_bookmark(book_id, position, label).bookmarks;
    let n = db.bookmarks.len();
    assert(set.drop_last() =~= db.bookmarks);
    if n > 0 {
        assert(db.bookmarks[n - 1].id < i64::MAX);
    }
    assert forall|k: int| 0 <= k < n implies (#[trigger] db.bookmarks[k]).id < set.last().id by {
        if k < n - 1 {
            assert(db.bookmarks[k].id < db.bookmarks[n - 1].id);
        }
    }
    let p = |b: BookmarkView| b.id != id;
    crate::library::tables::filter_from(db.bookmarks, p);
    let kept = db.bookmarks.filter(p);
    assert forall|m: BookmarkView|
        #[trigger] db.without_bookmark(id).bookmarks.contains(m) <==> db.bookmarks.contains(m) && m.id != id by {
        if kept.contains(m) {
            let k = choose|k: int| 0 <= k < kept.len() && kept[k] == m;
            assert(db.bookmarks.contains(kept[k]) && p(kept[k]));
        }
        if db.bookmarks.contains(m) && m.id != id {
            assert(p(m));
        }
    }
}

} // verus!
