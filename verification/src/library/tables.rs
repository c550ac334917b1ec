//! The contents of the library database, and what each operation makes of them.

use vstd::prelude::*;

use crate::library::{BookView, BookmarkView, HistoryView, MetaView, TrackView};
use crate::order::KeyView;
use crate::text::ascii_lower;

verus! {

/// The bits of the 32-bit float 1.0, the normal speed.
pub const NORMAL_SPEED_BITS: u32 = 0x3f80_0000;

/// The best rating that an entry can have.
pub const MAX_RATING: u8 = 5;

/// How the library grid is ordered.
#[derive(Debug, Clone, Copy, PartialEq, Eq, Structural)]
pub enum Sort {
    Title,
    Author,
    RecentlyAdded,
    RecentlyPlayed,
}

/// A book and the album that its files name.
#[verifier::ext_equal]
pub struct BookRowView {
    pub book: BookView,
    pub album: Option<Seq<char>>,
}

/// A track and the book that it belongs to.
#[verifier::ext_equal]
pub struct TrackRowView {
    pub book_id: i64,
    pub track: TrackView,
}

/// Everything that the database holds. Books, bookmarks and history entries
/// stand in the order in which they were added.
#[verifier::ext_equal]
pub struct DatabaseView {
    pub locations: Set<Seq<char>>,
    pub settings: Map<Seq<char>, Seq<char>>,
    pub books: Seq<BookRowView>,
    pub tracks: Seq<TrackRowView>,
    pub bookmarks: Seq<BookmarkView>,
    pub history: Seq<HistoryView>,
}

/// Whether some book has this id.
pub open spec fn has_book(books: Seq<BookRowView>, id: i64) -> bool {
    exists|i: int| 0 <= i < books.len() && (#[trigger] books[i]).book.id == id
}

/// Where the book with this id stands.
pub open spec fn place_of_book(books: Seq<BookRowView>, id: i64) -> int {
    choose|i: int| 0 <= i < books.len() && (#[trigger] books[i]).book.id == id
}

/// Whether some book has this path.
pub open spec fn has_path(books: Seq<BookRowView>, path: Seq<char>) -> bool {
    exists|i: int| 0 <= i < books.len() && (#[trigger] books[i]).book.path == path
}

/// Where the book with this path stands.
pub open spec fn place_of_path(books: Seq<BookRowView>, path: Seq<char>) -> int {
    choose|i: int| 0 <= i < books.len() && (#[trigger] books[i]).book.path == path
}

/// Whether some history entry has this key.
pub open spec fn has_key(history: Seq<HistoryView>, key: Seq<char>) -> bool {
    exists|i: int| 0 <= i < history.len() && (#[trigger] history[i]).is_of(key)
}

/// Whether some history entry has this id.
pub open spec fn has_entry(history: Seq<HistoryView>, id: i64) -> bool {
    exists|i: int| 0 <= i < history.len() && (#[trigger] history[i]).id == id
}

/// Whether the first history entry with this key stands here.
pub open spec fn is_place_of_key(history: Seq<HistoryView>, key: Seq<char>, i: int) -> bool {
    &&& 0 <= i < history.len()
    &&& history[i].is_of(key)
    &&& forall|j: int| 0 <= j < i ==> !(#[trigger] history[j]).is_of(key)
}

/// Where the first history entry with this key stands.
pub open spec fn place_of_key(history: Seq<HistoryView>, key: Seq<char>) -> int {
    choose|i: int| is_place_of_key(history, key, i)
}

/// The id that the next row gets: one above the last, which is the highest.
pub open spec fn id_after(last: Option<i64>) -> int {
    match last {
        Some(id) => id + 1,
        None => 1,
    }
}

/// The id that the next book gets.
pub open spec fn next_book_id(books: Seq<BookRowView>) -> int {
    id_after(if books.len() == 0 { None } else { Some(books.last().book.id) })
}

/// The id that the next bookmark gets.
pub open spec fn next_bookmark_id(bookmarks: Seq<BookmarkView>) -> int {
    id_after(if bookmarks.len() == 0 { None } else { Some(bookmarks.last().id) })
}

/// The id that the next history entry gets.
pub open spec fn next_history_id(history: Seq<HistoryView>) -> int {
    id_after(if history.len() == 0 { None } else { Some(history.last().id) })
}

/// Ids grow from row to row, and no two books share a path.
pub open spec fn books_valid(books: Seq<BookRowView>) -> bool {
    &&& forall|i: int, j: int|
        0 <= i < j < books.len() ==> (#[trigger] books[i]).book.id < (#[trigger] books[j]).book.id
    &&& forall|i: int, j: int|
        0 <= i < j < books.len() ==> (#[trigger] books[i]).book.path != (#[trigger] books[j]).book.path
}

/// Ids grow from row to row, and every bookmark is in a book.
pub open spec fn bookmarks_valid(bookmarks: Seq<BookmarkView>, books: Seq<BookRowView>) -> bool {
    &&& forall|i: int, j: int|
        0 <= i < j < bookmarks.len() ==> (#[trigger] bookmarks[i]).id < (#[trigger] bookmarks[j]).id
    &&& forall|i: int| 0 <= i < bookmarks.len() ==> has_book(books, (#[trigger] bookmarks[i]).book_id)
}

/// Every track is in a book, and no two tracks of a book share a number.
pub open spec fn tracks_valid(tracks: Seq<TrackRowView>, books: Seq<BookRowView>) -> bool {
    &&& forall|i: int| 0 <= i < tracks.len() ==> has_book(books, (#[trigger] tracks[i]).book_id)
    &&& forall|i: int, j: int|
        0 <= i < j < tracks.len() && (#[trigger] tracks[i]).book_id == (#[trigger] tracks[j]).book_id
            ==> tracks[i].track.idx != tracks[j].track.idx
}

/// Whether two history entries do not share a key.
pub open spec fn keys_fit(a: HistoryView, b: HistoryView) -> bool {
    a.keyed && b.keyed ==> a.book_key != b.book_key
}

/// Ids grow from row to row, no two entries share a key, and no rating is above
/// the best.
pub open spec fn history_valid(history: Seq<HistoryView>) -> bool {
    &&& forall|i: int, j: int|
        0 <= i < j < history.len() ==> (#[trigger] history[i]).id < (#[trigger] history[j]).id
    &&& forall|i: int, j: int|
        0 <= i < j < history.len() ==> keys_fit(#[trigger] history[i], #[trigger] history[j])
    &&& forall|i: int|
        0 <= i < history.len() ==> ((#[trigger] history[i]).rating matches Some(r) ==> r <= MAX_RATING)
}

/// A book that has just been added.
pub open spec fn new_book(
    id: i64,
    path: Seq<char>,
    meta: MetaView,
    chapter_count: usize,
    multi: bool,
    now: i64,
) -> BookRowView {
    BookRowView {
        book: BookView {
            id,
            path,
            title: meta.display_title(),
            author: meta.author,
            reader: meta.reader,
            duration: meta.length(),
            chapter_count,
            cover: meta.cover,
            position: 0,
            finished: false,
            speed_bits: NORMAL_SPEED_BITS,
            is_multi: multi,
            added_at: now,
            last_played: None,
        },
        album: meta.album,
    }
}

/// A book whose files were read again: what they say is taken over, and where
/// the listener stands is kept.
pub open spec fn refreshed_book(row: BookRowView, meta: MetaView, chapter_count: usize, multi: bool) -> BookRowView {
    BookRowView {
        book: BookView {
            title: meta.display_title(),
            author: meta.author,
            reader: meta.reader,
            duration: meta.length(),
            chapter_count,
            cover: meta.cover,
            is_multi: row.book.is_multi || multi,
            ..row.book
        },
        album: meta.album,
    }
}

/// How many tracks stand before the first whose number is taken.
pub open spec fn distinct_tracks(tracks: Seq<TrackView>) -> int
    decreases tracks.len(),
{
    if tracks.len() == 0 {
        0
    } else {
        let n = distinct_tracks(tracks.drop_last());
        if n == tracks.len() - 1 && forall|j: int|
            0 <= j < n ==> (#[trigger] tracks[j]).idx != tracks.last().idx {
            tracks.len() as int
        } else {
            n
        }
    }
}

/// Tracks as rows of a book.
pub open spec fn track_rows(id: i64, tracks: Seq<TrackView>) -> Seq<TrackRowView> {
    tracks.map_values(|t: TrackView| TrackRowView { book_id: id, track: t })
}

/// A rating as it is kept: no more than the best.
pub open spec fn kept_rating(rating: Option<u8>) -> Option<u8> {
    match rating {
        Some(r) => Some(if r > MAX_RATING { MAX_RATING } else { r }),
        None => None,
    }
}

/// A history entry for a book that had none.
pub open spec fn new_entry(id: i64, book: BookView, finished: bool, manual: bool, now: i64) -> HistoryView {
    HistoryView {
        id,
        book_key: book.path,
        keyed: true,
        title: book.title,
        author: book.author,
        reader: book.reader,
        cover: book.cover,
        rating: None,
        note: Seq::empty(),
        first_played: Some(now),
        last_played: Some(now),
        finished,
        added_manually: manual,
    }
}

/// A history entry after its book was listened to again: what the book says is
/// taken over, rating, note and first listening are kept, and the two marks
/// only ever turn on.
pub open spec fn refreshed_entry(entry: HistoryView, book: BookView, finished: bool, manual: bool, now: i64) -> HistoryView {
    HistoryView {
        title: book.title,
        author: book.author,
        reader: book.reader,
        cover: book.cover,
        last_played: Some(now),
        first_played: match entry.first_played {
            Some(t) => Some(t),
            None => Some(now),
        },
        finished: entry.finished || finished,
        added_manually: entry.added_manually || manual,
        ..entry
    }
}

impl DatabaseView {
    /// A database with nothing in it.
    pub open spec fn empty() -> DatabaseView {
        DatabaseView {
            locations: Set::empty(),
            settings: Map::empty(),
            books: Seq::empty(),
            tracks: Seq::empty(),
            bookmarks: Seq::empty(),
            history: Seq::empty(),
        }
    }

    /// What holds of the rows at all times.
    pub open spec fn valid(self) -> bool {
        &&& books_valid(self.books)
        &&& tracks_valid(self.tracks, self.books)
        &&& bookmarks_valid(self.bookmarks, self.books)
        &&& history_valid(self.history)
    }

    /// The book with this id, if there is one.
    pub open spec fn book(self, id: i64) -> Option<BookView> {
        if has_book(self.books, id) {
            Some(self.books[place_of_book(self.books, id)].book)
        } else {
            None
        }
    }

    /// The history entry with this key, if there is one.
    pub open spec fn entry(self, key: Seq<char>) -> Option<HistoryView> {
        if has_key(self.history, key) {
            Some(self.history[place_of_key(self.history, key)])
        } else {
            None
        }
    }

    /// The books alone.
    pub open spec fn book_views(self) -> Seq<BookView> {
        self.books.map_values(|r: BookRowView| r.book)
    }

    /// Whether a book can be put in at this path: it is there already, or there
    /// is an id for it.
    pub open spec fn can_put_book(self, path: Seq<char>) -> bool {
        has_path(self.books, path) || next_book_id(self.books) <= i64::MAX
    }

    /// The id under which a book at this path is put in.
    pub open spec fn id_for_path(self, path: Seq<char>) -> i64 {
        if has_path(self.books, path) {
            self.books[place_of_path(self.books, path)].book.id
        } else {
            next_book_id(self.books) as i64
        }
    }

    /// The database after a book was put in or refreshed.
    pub open spec fn put_book(self, path: Seq<char>, meta: MetaView, chapter_count: usize, multi: bool, now: i64) -> DatabaseView {
        DatabaseView {
            books: if has_path(self.books, path) {
                let i = place_of_path(self.books, path);
                self.books.update(i, refreshed_book(self.books[i], meta, chapter_count, multi))
            } else {
                self.books.push(new_book(self.id_for_path(path), path, meta, chapter_count, multi, now))
            },
            ..self
        }
    }

    /// The database after the tracks of a book were replaced.
    pub open spec fn put_tracks(self, id: i64, tracks: Seq<TrackView>) -> DatabaseView {
        DatabaseView {
            tracks: self.tracks.filter(|t: TrackRowView| t.book_id != id) + track_rows(id, tracks),
            ..self
        }
    }

    /// The database after a multi-file book was put in or refreshed. Where two
    /// tracks share a number, those from the second of them on are left out.
    pub open spec fn put_multi_book(self, path: Seq<char>, meta: MetaView, tracks: Seq<TrackView>, now: i64) -> DatabaseView {
        self.put_book(path, meta, tracks.len() as usize, true, now).put_tracks(
            self.id_for_path(path),
            tracks.take(distinct_tracks(tracks)),
        )
    }

    /// The rows of a book's tracks.
    pub open spec fn tracks_in(self, book_id: i64) -> Seq<TrackView> {
        self.tracks.filter(|t: TrackRowView| t.book_id == book_id).map_values(|t: TrackRowView| t.track)
    }

    /// The bookmarks in a book.
    pub open spec fn bookmarks_in(self, book_id: i64) -> Seq<BookmarkView> {
        self.bookmarks.filter(|b: BookmarkView| b.book_id == book_id)
    }

    /// The database after the book with this id was changed by `f`, if there is
    /// one.
    pub open spec fn change_book(self, id: i64, f: spec_fn(BookView) -> BookView) -> DatabaseView {
        DatabaseView {
            books: self.books.map_values(
                |r: BookRowView|
                    if r.book.id == id {
                        BookRowView { book: f(r.book), ..r }
                    } else {
                        r
                    },
            ),
            ..self
        }
    }

    /// The database without the book with this id, its tracks and bookmarks.
    pub open spec fn without_book(self, id: i64) -> DatabaseView {
        DatabaseView {
            books: self.books.filter(|r: BookRowView| r.book.id != id),
            tracks: self.tracks.filter(|t: TrackRowView| t.book_id != id),
            bookmarks: self.bookmarks.filter(|b: BookmarkView| b.book_id != id),
            ..self
        }
    }

    /// The database without the single-file book at this path.
    pub open spec fn without_single(self, path: Seq<char>) -> DatabaseView {
        if has_path(self.books, path) && !self.books[place_of_path(self.books, path)].book.is_multi {
            self.without_book(self.books[place_of_path(self.books, path)].book.id)
        } else {
            self
        }
    }

    /// Whether a bookmark can be set in this book: it exists, and there is an
    /// id for the bookmark.
    pub open spec fn can_bookmark(self, book_id: i64) -> bool {
        has_book(self.books, book_id) && next_bookmark_id(self.bookmarks) <= i64::MAX
    }

    /// The database after a bookmark was set.
    pub open spec fn put_bookmark(self, book_id: i64, position: nat, label: Seq<char>) -> DatabaseView {
        DatabaseView {
            bookmarks: self.bookmarks.push(
                BookmarkView { id: next_bookmark_id(self.bookmarks) as i64, book_id, position, label },
            ),
            ..self
        }
    }

    /// The database without this bookmark.
    pub open spec fn without_bookmark(self, id: i64) -> DatabaseView {
        DatabaseView { bookmarks: self.bookmarks.filter(|b: BookmarkView| b.id != id), ..self }
    }

    /// Whether an entry can be kept for this key: there is one already, or there
    /// is an id for it.
    pub open spec fn can_put_entry(self, key: Seq<char>) -> bool {
        has_key(self.history, key) || next_history_id(self.history) <= i64::MAX
    }

    /// The id under which the entry for this key is kept.
    pub open spec fn id_for_key(self, key: Seq<char>) -> i64 {
        if has_key(self.history, key) {
            self.history[place_of_key(self.history, key)].id
        } else {
            next_history_id(self.history) as i64
        }
    }

    /// The database after the history entry of a book was made or refreshed.
    pub open spec fn put_entry(self, book: BookView, finished: bool, manual: bool, now: i64) -> DatabaseView {
        DatabaseView {
            history: if has_key(self.history, book.path) {
                let i = place_of_key(self.history, book.path);
                self.history.update(i, refreshed_entry(self.history[i], book, finished, manual, now))
            } else {
                self.history.push(
                    new_entry(next_history_id(self.history) as i64, book, finished, manual, now),
                )
            },
            ..self
        }
    }

    /// The database after the history entry with this id was changed by `f`, if
    /// there is one.
    pub open spec fn change_entry(self, id: i64, f: spec_fn(HistoryView) -> HistoryView) -> DatabaseView {
        DatabaseView {
            history: self.history.map_values(
                |h: HistoryView|
                    if h.id == id {
                        f(h)
                    } else {
                        h
                    },
            ),
            ..self
        }
    }

    /// The database without this history entry.
    pub open spec fn without_entry(self, id: i64) -> DatabaseView {
        DatabaseView { history: self.history.filter(|h: HistoryView| h.id != id), ..self }
    }
}

// ---- what filtering keeps --------------------------------------------------

/// What a filter keeps was there before.
pub proof fn filter_from<T>(s: Seq<T>, p: spec_fn(T) -> bool)
    ensures
        forall|i: int| 0 <= i < s.filter(p).len() ==> s.contains(#[trigger] s.filter(p)[i]) && p(s.filter(p)[i]),
        forall|x: T| s.contains(x) && p(x) ==> #[trigger] s.filter(p).contains(x),
    decreases s.len(),
{
    reveal(Seq::filter);
    if s.len() > 0 {
        let t = s.drop_last();
        filter_from(t, p);
        let f = s.filter(p);
        assert forall|i: int| 0 <= i < f.len() implies s.contains(#[trigger] f[i]) && p(f[i]) by {
            if i < t.filter(p).len() {
                assert(t.contains(t.filter(p)[i]));
                let k = choose|k: int| 0 <= k < t.len() && t[k] == t.filter(p)[i];
                assert(s[k] == f[i]);
            } else {
                assert(f[i] == s[s.len() - 1]);
            }
        }
        assert forall|x: T| s.contains(x) && p(x) implies #[trigger] f.contains(x) by {
            let k = choose|k: int| 0 <= k < s.len() && s[k] == x;
            if k < t.len() {
                assert(t[k] == x);
                assert(t.filter(p).contains(x));
                let m = choose|m: int| 0 <= m < t.filter(p).len() && t.filter(p)[m] == x;
                assert(f[m] == x);
            } else {
                assert(f[f.len() - 1] == x);
            }
        }
    }
}

/// A filter that every row passes keeps them all.
pub proof fn filter_all<T>(s: Seq<T>, p: spec_fn(T) -> bool)
    requires
        forall|i: int| 0 <= i < s.len() ==> p(#[trigger] s[i]),
    ensures
        s.filter(p) == s,
    decreases s.len(),
{
    reveal(Seq::filter);
    if s.len() > 0 {
        assert forall|i: int| 0 <= i < s.drop_last().len() implies p(#[trigger] s.drop_last()[i]) by {
            assert(p(s[i]));
        }
        filter_all(s.drop_last(), p);
        assert(s.drop_last().push(s.last()) =~= s);
    }
}

/// One more row of a list is one more to filter.
pub proof fn filter_step<T>(s: Seq<T>, n: int, p: spec_fn(T) -> bool)
    requires
        0 <= n < s.len(),
    ensures
        s.take(n + 1).filter(p) == if p(s[n]) {
            s.take(n).filter(p).push(s[n])
        } else {
            s.take(n).filter(p)
        },
{
    reveal(Seq::filter);
    assert(s.take(n + 1).drop_last() =~= s.take(n));
    assert(s.take(n + 1).last() == s[n]);
}

/// What holds of every two rows, the first before the second, still holds after
/// a filter.
pub proof fn filter_pairs<T>(s: Seq<T>, p: spec_fn(T) -> bool, r: spec_fn(T, T) -> bool)
    requires
        forall|i: int, j: int| 0 <= i < j < s.len() ==> r(#[trigger] s[i], #[trigger] s[j]),
    ensures
        forall|i: int, j: int|
            0 <= i < j < s.filter(p).len() ==> r(#[trigger] s.filter(p)[i], #[trigger] s.filter(p)[j]),
    decreases s.len(),
{
    reveal(Seq::filter);
    if s.len() > 0 {
        let t = s.drop_last();
        filter_pairs(t, p, r);
        filter_from(t, p);
        let f = s.filter(p);
        assert forall|i: int, j: int| 0 <= i < j < f.len() implies r(#[trigger] f[i], #[trigger] f[j]) by {
            if j < t.filter(p).len() {
                assert(f[i] == t.filter(p)[i] && f[j] == t.filter(p)[j]);
            } else {
                assert(f[j] == s[s.len() - 1]);
                assert(t.contains(t.filter(p)[i]));
                let k = choose|k: int| 0 <= k < t.len() && t[k] == t.filter(p)[i];
                assert(s[k] == f[i]);
            }
        }
    }
}

// ---- what every operation keeps --------------------------------------------

/// Two books with one id are one.
pub proof fn one_book_per_id(books: Seq<BookRowView>, i: int, j: int)
    requires
        books_valid(books),
        0 <= i < books.len(),
        0 <= j < books.len(),
        books[i].book.id == books[j].book.id,
    ensures
        i == j,
{
    if i < j {
        assert(books[i].book.id < books[j].book.id);
    } else if j < i {
        assert(books[j].book.id < books[i].book.id);
    }
}

/// Two books at one path are one.
pub proof fn one_book_per_path(books: Seq<BookRowView>, i: int, j: int)
    requires
        books_valid(books),
        0 <= i < books.len(),
        0 <= j < books.len(),
        books[i].book.path == books[j].book.path,
    ensures
        i == j,
{
    if i < j {
        assert(books[i].book.path != books[j].book.path);
    } else if j < i {
        assert(books[j].book.path != books[i].book.path);
    }
}

/// Two entries with one id are one.
pub proof fn one_entry_per_id(history: Seq<HistoryView>, i: int, j: int)
    requires
        history_valid(history),
        0 <= i < history.len(),
        0 <= j < history.len(),
        history[i].id == history[j].id,
    ensures
        i == j,
{
    if i < j {
        assert(history[i].id < history[j].id);
    } else if j < i {
        assert(history[j].id < history[i].id);
    }
}

proof fn first_key(history: Seq<HistoryView>, key: Seq<char>, n: int) -> (i: int)
    requires
        0 <= n < history.len(),
        history[n].is_of(key),
    ensures
        is_place_of_key(history, key, i),
    decreases n,
{
    if exists|j: int| 0 <= j < n && (#[trigger] history[j]).is_of(key) {
        let j = choose|j: int| 0 <= j < n && (#[trigger] history[j]).is_of(key);
        first_key(history, key, j)
    } else {
        n
    }
}

/// A key that some entry has stands somewhere first.
pub proof fn key_has_place(history: Seq<HistoryView>, key: Seq<char>)
    requires
        has_key(history, key),
    ensures
        is_place_of_key(history, key, place_of_key(history, key)),
{
    let n = choose|n: int| 0 <= n < history.len() && (#[trigger] history[n]).is_of(key);
    let i = first_key(history, key, n);
    assert(is_place_of_key(history, key, i));
}

/// A key stands in one place first.
pub proof fn one_first_place(history: Seq<HistoryView>, key: Seq<char>, i: int)
    requires
        is_place_of_key(history, key, i),
    ensures
        has_key(history, key),
        place_of_key(history, key) == i,
{
    let k = place_of_key(history, key);
    assert(is_place_of_key(history, key, k));
    if k < i {
        assert(!history[k].is_of(key));
    } else if i < k {
        assert(!history[i].is_of(key));
    }
}

/// Books that were there stay where every id of theirs is found again.
proof fn references_kept(db: DatabaseView, books: Seq<BookRowView>)
    requires
        db.valid(),
        forall|id: i64| has_book(db.books, id) ==> #[trigger] has_book(books, id),
    ensures
        tracks_valid(db.tracks, books),
        bookmarks_valid(db.bookmarks, books),
{
}

/// Putting a book in keeps the database valid.
pub proof fn put_book_keeps_valid(db: DatabaseView, path: Seq<char>, meta: MetaView, chapter_count: usize, multi: bool, now: i64)
    requires
        db.valid(),
        db.can_put_book(path),
    ensures
        db.put_book(path, meta, chapter_count, multi, now).valid(),
        has_book(db.put_book(path, meta, chapter_count, multi, now).books, db.id_for_path(path)),
{
    let after = db.put_book(path, meta, chapter_count, multi, now).books;
    let id = db.id_for_path(path);
    if has_path(db.books, path) {
        let i = place_of_path(db.books, path);
        assert(after[i].book.id == id);
        assert forall|x: i64| has_book(db.books, x) implies #[trigger] has_book(after, x) by {
            let k = place_of_book(db.books, x);
            assert(after[k].book.id == x);
        }
    } else {
        assert(after[after.len() - 1].book.id == id);
        assert forall|x: i64| has_book(db.books, x) implies #[trigger] has_book(after, x) by {
            let k = place_of_book(db.books, x);
            assert(after[k].book.id == x);
        }
        assert forall|i: int, j: int| 0 <= i < j < after.len() implies (#[trigger] after[i]).book.id < (
        #[trigger] after[j]).book.id by {
            if j == after.len() - 1 {
                if i < db.books.len() - 1 {
                    assert(db.books[i].book.id < db.books[db.books.len() - 1].book.id);
                }
            }
        }
        assert forall|i: int, j: int| 0 <= i < j < after.len() implies (#[trigger] after[i]).book.path != (
        #[trigger] after[j]).book.path by {
            if j == after.len() - 1 {
                assert(db.books[i].book.path != path);
            }
        }
    }
    references_kept(db, after);
}

/// The tracks before the first repeated number have numbers of their own.
pub proof fn distinct_tracks_differ(tracks: Seq<TrackView>)
    ensures
        0 <= distinct_tracks(tracks) <= tracks.len(),
        forall|i: int, j: int|
            0 <= i < j < distinct_tracks(tracks) ==> (#[trigger] tracks[i]).idx != (#[trigger] tracks[j]).idx,
    decreases tracks.len(),
{
    if tracks.len() > 0 {
        distinct_tracks_differ(tracks.drop_last());
        let t = tracks.drop_last();
        let n = distinct_tracks(tracks);
        assert forall|i: int, j: int| 0 <= i < j < n implies (#[trigger] tracks[i]).idx != (#[trigger] tracks[j]).idx by {
            if j < t.len() {
                assert(t[i] == tracks[i] && t[j] == tracks[j]);
            }
        }
    }
}

/// Replacing the tracks of a book keeps the database valid.
pub proof fn put_tracks_keeps_valid(db: DatabaseView, id: i64, tracks: Seq<TrackView>)
    requires
        db.valid(),
        has_book(db.books, id),
        forall|i: int, j: int|
            0 <= i < j < tracks.len() ==> (#[trigger] tracks[i]).idx != (#[trigger] tracks[j]).idx,
    ensures
        db.put_tracks(id, tracks).valid(),
{
    let p = |t: TrackRowView| t.book_id != id;
    let kept = db.tracks.filter(p);
    filter_from(db.tracks, p);
    filter_pairs(
        db.tracks,
        p,
        |a: TrackRowView, b: TrackRowView| a.book_id == b.book_id ==> a.track.idx != b.track.idx,
    );
    let after = db.put_tracks(id, tracks).tracks;
    assert forall|i: int| 0 <= i < after.len() implies has_book(db.books, (#[trigger] after[i]).book_id) by {
        if i < kept.len() {
            assert(after[i] == kept[i]);
            assert(db.tracks.contains(kept[i]));
        }
    }
    assert forall|i: int, j: int|
        0 <= i < j < after.len() && (#[trigger] after[i]).book_id == (#[trigger] after[j]).book_id implies after[i].track.idx
        != after[j].track.idx by {
        if j < kept.len() {
            assert(after[i] == kept[i] && after[j] == kept[j]);
        } else if i < kept.len() {
            assert(after[i] == kept[i]);
            assert(p(kept[i]));
        } else {
            assert(after[i].track == tracks[i - kept.len()]);
            assert(after[j].track == tracks[j - kept.len()]);
        }
    }
}

/// Putting a multi-file book in keeps the database valid.
pub proof fn put_multi_book_keeps_valid(db: DatabaseView, path: Seq<char>, meta: MetaView, tracks: Seq<TrackView>, now: i64)
    requires
        db.valid(),
        db.can_put_book(path),
    ensures
        db.put_multi_book(path, meta, tracks, now).valid(),
{
    put_book_keeps_valid(db, path, meta, tracks.len() as usize, true, now);
    distinct_tracks_differ(tracks);
    let few = tracks.take(distinct_tracks(tracks));
    assert forall|i: int, j: int| 0 <= i < j < few.len() implies (#[trigger] few[i]).idx != (#[trigger] few[j]).idx by {
        assert(few[i] == tracks[i] && few[j] == tracks[j]);
    }
    put_tracks_keeps_valid(
        db.put_book(path, meta, tracks.len() as usize, true, now),
        db.id_for_path(path),
        few,
    );
}

/// Changing a book, but for its id and path, keeps the database valid.
pub proof fn change_book_keeps_valid(db: DatabaseView, id: i64, f: spec_fn(BookView) -> BookView)
    requires
        db.valid(),
        forall|b: BookView| (#[trigger] f(b)).id == b.id && f(b).path == b.path,
    ensures
        db.change_book(id, f).valid(),
{
    let after = db.change_book(id, f).books;
    assert forall|i: int, j: int| 0 <= i < j < after.len() implies (#[trigger] after[i]).book.id < (
    #[trigger] after[j]).book.id by {
        assert(after[i].book.id == db.books[i].book.id && after[j].book.id == db.books[j].book.id);
    }
    assert forall|i: int, j: int| 0 <= i < j < after.len() implies (#[trigger] after[i]).book.path != (
    #[trigger] after[j]).book.path by {
        assert(after[i].book.path == db.books[i].book.path && after[j].book.path == db.books[j].book.path);
    }
    assert forall|x: i64| has_book(db.books, x) implies #[trigger] has_book(after, x) by {
        let k = place_of_book(db.books, x);
        assert(after[k].book.id == x);
    }
    references_kept(db, after);
}

/// Removing a book, with its tracks and bookmarks, keeps the database valid.
pub proof fn without_book_keeps_valid(db: DatabaseView, id: i64)
    requires
        db.valid(),
    ensures
        db.without_book(id).valid(),
        !has_book(db.without_book(id).books, id),
        forall|x: i64| x != id && has_book(db.books, x) ==> #[trigger] has_book(db.without_book(id).books, x),
{
    let after = db.without_book(id);
    let pb = |r: BookRowView| r.book.id != id;
    let pt = |t: TrackRowView| t.book_id != id;
    let pm = |b: BookmarkView| b.book_id != id;
    filter_from(db.books, pb);
    filter_from(db.tracks, pt);
    filter_from(db.bookmarks, pm);
    filter_pairs(db.books, pb, |a: BookRowView, b: BookRowView| a.book.id < b.book.id);
    filter_pairs(db.books, pb, |a: BookRowView, b: BookRowView| a.book.path != b.book.path);
    filter_pairs(
        db.tracks,
        pt,
        |a: TrackRowView, b: TrackRowView| a.book_id == b.book_id ==> a.track.idx != b.track.idx,
    );
    filter_pairs(db.bookmarks, pm, |a: BookmarkView, b: BookmarkView| a.id < b.id);
    assert forall|x: i64| x != id && has_book(db.books, x) implies #[trigger] has_book(after.books, x) by {
        let k = place_of_book(db.books, x);
        assert(db.books.contains(db.books[k]));
        assert(after.books.contains(db.books[k]));
        let m = choose|m: int| 0 <= m < after.books.len() && after.books[m] == db.books[k];
        assert(after.books[m].book.id == x);
    }
    if has_book(after.books, id) {
        let k = place_of_book(after.books, id);
        assert(pb(after.books[k]));
    }
    assert forall|i: int| 0 <= i < after.tracks.len() implies has_book(after.books, (#[trigger] after.tracks[i]).book_id) by {
        assert(db.tracks.contains(after.tracks[i]));
        assert(pt(after.tracks[i]));
    }
    assert forall|i: int| 0 <= i < after.bookmarks.len() implies has_book(after.books, (#[trigger] after.bookmarks[i]).book_id) by {
        assert(db.bookmarks.contains(after.bookmarks[i]));
        assert(pm(after.bookmarks[i]));
    }
}

/// Setting a bookmark keeps the database valid.
pub proof fn put_bookmark_keeps_valid(db: DatabaseView, book_id: i64, position: nat, label: Seq<char>)
    requires
        db.valid(),
        db.can_bookmark(book_id),
    ensures
        db.put_bookmark(book_id, position, label).valid(),
{
    let after = db.put_bookmark(book_id, position, label).bookmarks;
    assert forall|i: int, j: int| 0 <= i < j < after.len() implies (#[trigger] after[i]).id < (#[trigger] after[j]).id by {
        if j == after.len() - 1 && i < db.bookmarks.len() - 1 {
            assert(db.bookmarks[i].id < db.bookmarks[db.bookmarks.len() - 1].id);
        }
    }
}

/// Removing a bookmark keeps the database valid.
pub proof fn without_bookmark_keeps_valid(db: DatabaseView, id: i64)
    requires
        db.valid(),
    ensures
        db.without_bookmark(id).valid(),
{
    let p = |b: BookmarkView| b.id != id;
    filter_from(db.bookmarks, p);
    filter_pairs(db.bookmarks, p, |a: BookmarkView, b: BookmarkView| a.id < b.id);
    let after = db.without_bookmark(id).bookmarks;
    assert forall|i: int| 0 <= i < after.len() implies has_book(db.books, (#[trigger] after[i]).book_id) by {
        assert(db.bookmarks.contains(after[i]));
    }
}

/// Making or refreshing a history entry keeps the database valid.
pub proof fn put_entry_keeps_valid(db: DatabaseView, book: BookView, finished: bool, manual: bool, now: i64)
    requires
        db.valid(),
        db.can_put_entry(book.path),
    ensures
        db.put_entry(book, finished, manual, now).valid(),
{
    let after = db.put_entry(book, finished, manual, now).history;
    if has_key(db.history, book.path) {
        key_has_place(db.history, book.path);
        assert forall|i: int, j: int| 0 <= i < j < after.len() implies keys_fit(
            #[trigger] after[i],
            #[trigger] after[j],
        ) by {
            assert(keys_fit(db.history[i], db.history[j]));
        }
    } else {
        assert forall|i: int, j: int| 0 <= i < j < after.len() implies (#[trigger] after[i]).id < (#[trigger] after[j]).id
            && keys_fit(after[i], after[j]) by {
            if j < after.len() - 1 {
                assert(keys_fit(db.history[i], db.history[j]));
            } else {
                assert(!db.history[i].is_of(book.path));
                if i < db.history.len() - 1 {
                    assert(db.history[i].id < db.history[db.history.len() - 1].id);
                }
            }
        }
    }
}

/// Changing a history entry, but for its id and key, keeps the database valid.
pub proof fn change_entry_keeps_valid(db: DatabaseView, id: i64, f: spec_fn(HistoryView) -> HistoryView)
    requires
        db.valid(),
        forall|h: HistoryView| (#[trigger] f(h)).id == h.id && f(h).book_key == h.book_key && f(h).keyed == h.keyed,
        forall|h: HistoryView|
            (h.rating matches Some(r) ==> r <= MAX_RATING) ==> ((#[trigger] f(h)).rating matches Some(r) ==> r
                <= MAX_RATING),
    ensures
        db.change_entry(id, f).valid(),
{
    let after = db.change_entry(id, f).history;
    assert forall|i: int, j: int| 0 <= i < j < after.len() implies (#[trigger] after[i]).id < (#[trigger] after[j]).id by {
        assert(after[i].id == db.history[i].id && after[j].id == db.history[j].id);
    }
    assert forall|i: int, j: int| 0 <= i < j < after.len() implies keys_fit(
        #[trigger] after[i],
        #[trigger] after[j],
    ) by {
                assert(keys_fit(db.history[i], db.history[j]));
    }
    assert forall|i: int| 0 <= i < after.len() implies ((#[trigger] after[i]).rating matches Some(r) ==> r <= MAX_RATING) by {
        let h = db.history[i];
        assert(after[i] == h || after[i] == f(h));
    }
}

/// Removing a history entry keeps the database valid.
pub proof fn without_entry_keeps_valid(db: DatabaseView, id: i64)
    requires
        db.valid(),
    ensures
        db.without_entry(id).valid(),
{
    let p = |h: HistoryView| h.id != id;
    filter_from(db.history, p);
    filter_pairs(db.history, p, |a: HistoryView, b: HistoryView| a.id < b.id);
    filter_pairs(db.history, p, |a: HistoryView, b: HistoryView| keys_fit(a, b));
    let after = db.without_entry(id).history;
    assert forall|i: int| 0 <= i < after.len() implies ((#[trigger] after[i]).rating matches Some(r) ==> r <= MAX_RATING) by {
        assert(db.history.contains(after[i]));
    }
}

// ---- the orders in which rows are listed -----------------------------------

/// A text as it counts in an order that takes ASCII capitals for small letters.
pub open spec fn caseless(s: Seq<char>) -> Seq<int> {
    s.map_values(|c: char| ascii_lower(c) as int)
}

/// A time as it counts in an order that puts the latest first and those unknown
/// last.
pub open spec fn latest_first(t: Option<i64>) -> Seq<int> {
    match t {
        Some(t) => seq![0, -(t as int)],
        None => seq![1],
    }
}

/// What books are ordered by. Books without an author come before all others
/// in the order by author; ties go to the book that was added first.
pub open spec fn book_key(sort: Sort, b: BookView) -> KeyView {
    match sort {
        Sort::Title => KeyView { first: caseless(b.title), second: Seq::empty(), last: b.id as int },
        Sort::Author => KeyView {
            first: match b.author {
                Some(a) => seq![1int] + caseless(a),
                None => seq![0int],
            },
            second: caseless(b.title),
            last: b.id as int,
        },
        Sort::RecentlyAdded => KeyView {
            first: seq![-(b.added_at as int)],
            second: Seq::empty(),
            last: b.id as int,
        },
        Sort::RecentlyPlayed => KeyView {
            first: latest_first(b.last_played),
            second: seq![-(b.added_at as int)],
            last: b.id as int,
        },
    }
}

/// What tracks are ordered by.
pub open spec fn track_key(t: TrackView) -> KeyView {
    KeyView { first: seq![t.idx as int], second: Seq::empty(), last: 0 }
}

/// What bookmarks are ordered by.
pub open spec fn bookmark_key(b: BookmarkView) -> KeyView {
    KeyView { first: seq![b.position as int], second: Seq::empty(), last: b.id as int }
}

/// What history entries are ordered by.
pub open spec fn history_key(h: HistoryView) -> KeyView {
    KeyView { first: latest_first(h.last_played), second: Seq::empty(), last: -(h.id as int) }
}

} // verus!
