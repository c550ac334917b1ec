//! In which order books, tracks, bookmarks and history entries are listed, told by
//! what they hold: titles, authors, times, positions and numbers.

use vstd::prelude::*;

use crate::library::tables::{
    book_key, bookmark_key, caseless, filter_from, filter_pairs, history_key, latest_first, one_book_per_id,
    one_entry_per_id, track_key, DatabaseView, Sort, TrackRowView,
};
use crate::library::{BookView, BookmarkView, HistoryView, TrackView};
use crate::order::{is_listing, key_less, key_order, lex_less, lex_order, listing, listing_exists, listing_is};

verus! {

// ---- words -----------------------------------------------------------------

/// The code point of a character, that of the small letter for an ASCII capital.
pub open spec fn small(c: char) -> int {
    if 'A' <= c <= 'Z' {
        c as int + 32
    } else {
        c as int
    }
}

/// Whether two texts are the same but for ASCII capitals.
pub open spec fn same_but_case(a: Seq<char>, b: Seq<char>) -> bool {
    a.len() == b.len() && forall|k: int| 0 <= k < a.len() ==> small(#[trigger] a[k]) == small(b[k])
}

/// Whether two texts, alike before the `k`th character but for ASCII capitals,
/// differ there, and `a` ends there or has the lower character.
pub open spec fn parts_at(a: Seq<char>, b: Seq<char>, k: int) -> bool {
    &&& 0 <= k <= a.len()
    &&& k < b.len()
    &&& forall|m: int| 0 <= m < k ==> small(#[trigger] a[m]) == small(b[m])
    &&& k < a.len() ==> small(a[k]) < small(b[k])
}

/// Whether `a` comes before `b` in the order of code points, with ASCII capitals
/// taken for small letters.
pub open spec fn comes_before(a: Seq<char>, b: Seq<char>) -> bool {
    exists|k: int| parts_at(a, b, k)
}

proof fn lex_parts(a: Seq<int>, b: Seq<int>) -> (k: int)
    requires
        lex_less(a, b),
    ensures
        0 <= k <= a.len(),
        k < b.len(),
        forall|m: int| 0 <= m < k ==> a[m] == b[m],
        k < a.len() ==> a[k] < b[k],
    decreases a.len(),
{
    if a.len() == 0 || a[0] != b[0] {
        0
    } else {
        let k = lex_parts(a.drop_first(), b.drop_first());
        assert forall|m: int| 0 <= m < k + 1 implies a[m] == b[m] by {
            if m > 0 {
                assert(a.drop_first()[m - 1] == b.drop_first()[m - 1]);
            }
        }
        if k + 1 < a.len() {
            assert(a.drop_first()[k] < b.drop_first()[k]);
        }
        k + 1
    }
}

proof fn parts_lex(a: Seq<int>, b: Seq<int>, k: int)
    requires
        0 <= k <= a.len(),
        k < b.len(),
        forall|m: int| 0 <= m < k ==> a[m] == b[m],
        k < a.len() ==> a[k] < b[k],
    ensures
        lex_less(a, b),
    decreases k,
{
    if k > 0 {
        assert(a[0] == b[0]);
        let x = a.drop_first();
        let y = b.drop_first();
        assert forall|m: int| 0 <= m < k - 1 implies x[m] == y[m] by {
            assert(a[m + 1] == b[m + 1]);
        }
        parts_lex(x, y, k - 1);
    }
}

proof fn caseless_says(a: Seq<char>, b: Seq<char>)
    ensures
        lex_less(caseless(a), caseless(b)) == comes_before(a, b),
        (caseless(a) == caseless(b)) == same_but_case(a, b),
{
    let x = caseless(a);
    let y = caseless(b);
    assert forall|k: int| 0 <= k < a.len() implies x[k] == small(#[trigger] a[k]) by {}
    assert forall|k: int| 0 <= k < b.len() implies y[k] == small(#[trigger] b[k]) by {}
    if lex_less(x, y) {
        let k = lex_parts(x, y);
        assert forall|m: int| 0 <= m < k implies small(#[trigger] a[m]) == small(b[m]) by {
            assert(x[m] == y[m]);
        }
        assert(parts_at(a, b, k));
    }
    if comes_before(a, b) {
        let k = choose|k: int| parts_at(a, b, k);
        assert forall|m: int| 0 <= m < k implies x[m] == y[m] by {
            assert(small(a[m]) == small(b[m]));
        }
        parts_lex(x, y, k);
    }
    if x == y {
        assert forall|k: int| 0 <= k < a.len() implies small(#[trigger] a[k]) == small(b[k]) by {
            assert(x[k] == y[k]);
        }
    }
    if same_but_case(a, b) {
        assert forall|k: int| 0 <= k < a.len() implies x[k] == y[k] by {
            assert(small(a[k]) == small(b[k]));
        }
        assert(x =~= y);
    }
}

/// Of two texts that are not the same but for ASCII capitals one comes before the
/// other, and only one does.
pub proof fn one_text_comes_before(a: Seq<char>, b: Seq<char>)
    ensures
        same_but_case(a, b) ==> !comes_before(a, b) && !comes_before(b, a),
        !same_but_case(a, b) ==> comes_before(a, b) != comes_before(b, a),
{
    caseless_says(a, b);
    caseless_says(b, a);
    lex_order(caseless(a), caseless(b));
}

// ---- books -----------------------------------------------------------------

/// The books as they are listed in an order.
pub open spec fn listed_books(db: DatabaseView, sort: Sort) -> Seq<BookView> {
    listing(db.book_views(), |b: BookView| book_key(sort, b))
}

proof fn books_listed(db: DatabaseView, sort: Sort)
    requires
        db.valid(),
    ensures
        is_listing(db.book_views(), |b: BookView| book_key(sort, b), listed_books(db, sort)),
        listed_books(db, sort).len() == db.books.len(),
{
    let rows = db.book_views();
    let key = |b: BookView| book_key(sort, b);
    assert forall|i: int| 0 <= i < rows.len() implies #[trigger] rows[i] == db.books[i].book by {}
    assert forall|i: int, j: int|
        0 <= i < rows.len() && 0 <= j < rows.len() && key(#[trigger] rows[i]) == key(#[trigger] rows[j]) implies rows[i]
        == rows[j] by {
        assert(key(rows[i]).last == rows[i].id as int);
        assert(key(rows[j]).last == rows[j].id as int);
        one_book_per_id(db.books, i, j);
    }
    listing_exists(rows, key);
    listing_is(rows, key, listing(rows, key));
    assert forall|i: int, j: int| 0 <= i < j < rows.len() implies rows[i] != rows[j] by {
        assert(db.books[i].book.id < db.books[j].book.id);
    }
}

/// However the books are listed, each book of the library is listed once, and
/// nothing else is.
pub proof fn every_book_is_listed(db: DatabaseView, sort: Sort)
    requires
        db.valid(),
    ensures
        listed_books(db, sort).len() == db.books.len(),
        forall|i: int| 0 <= i < db.books.len() ==> listed_books(db, sort).contains((#[trigger] db.books[i]).book),
        forall|i: int, j: int|
            0 <= i < j < listed_books(db, sort).len() ==> (#[trigger] listed_books(db, sort)[i]).id != (
            #[trigger] listed_books(db, sort)[j]).id,
{
    books_listed(db, sort);
    let l = listed_books(db, sort);
    let rows = db.book_views();
    let key = |b: BookView| book_key(sort, b);
    assert forall|i: int| 0 <= i < db.books.len() implies l.contains((#[trigger] db.books[i]).book) by {
        assert(rows[i] == db.books[i].book);
        assert(l.contains(rows[i]));
    }
    assert forall|i: int, j: int| 0 <= i < j < l.len() implies (#[trigger] l[i]).id != (#[trigger] l[j]).id by {
        assert(rows.contains(l[i]) && rows.contains(l[j]));
        let m = choose|m: int| 0 <= m < rows.len() && rows[m] == l[i];
        let n = choose|n: int| 0 <= n < rows.len() && rows[n] == l[j];
        assert(rows[m] == db.books[m].book && rows[n] == db.books[n].book);
        if l[i].id == l[j].id {
            one_book_per_id(db.books, m, n);
            assert(key_less(key(l[i]), key(l[j])));
            key_order(key(l[i]), key(l[j]));
        }
    }
}

/// In a list by title, no book comes after one whose title comes after its own;
/// of two books with the same title but for case, the one that was added first
/// comes first.
pub proof fn books_by_title(db: DatabaseView, i: int, j: int)
    requires
        db.valid(),
        0 <= i < j < listed_books(db, Sort::Title).len(),
    ensures
        ({
            let a = listed_books(db, Sort::Title)[i];
            let b = listed_books(db, Sort::Title)[j];
            &&& !comes_before(b.title, a.title)
            &&& same_but_case(a.title, b.title) ==> a.id < b.id
        }),
{
    books_listed(db, Sort::Title);
    let l = listed_books(db, Sort::Title);
    let key = |b: BookView| book_key(Sort::Title, b);
    assert(key_less(key(l[i]), key(l[j])));
    caseless_says(l[i].title, l[j].title);
    caseless_says(l[j].title, l[i].title);
    lex_order(caseless(l[i].title), caseless(l[j].title));
}

proof fn one_in_front(a: Seq<int>, b: Seq<int>, x: int)
    ensures
        lex_less(seq![x] + a, seq![x] + b) == lex_less(a, b),
        (seq![x] + a == seq![x] + b) == (a == b),
{
    assert((seq![x] + a).drop_first() =~= a);
    assert((seq![x] + b).drop_first() =~= b);
}

/// In a list by author, books without an author come first, and no book comes
/// after one whose author comes after its own; the books of one author (but for
/// case) are in the order of their titles, and those with the same title too in
/// the order in which they were added.
pub proof fn books_by_author(db: DatabaseView, i: int, j: int)
    requires
        db.valid(),
        0 <= i < j < listed_books(db, Sort::Author).len(),
    ensures
        ({
            let a = listed_books(db, Sort::Author)[i];
            let b = listed_books(db, Sort::Author)[j];
            &&& a.author is Some ==> b.author is Some
            &&& a.author is Some && b.author is Some ==> !comes_before(b.author->Some_0, a.author->Some_0)
            &&& (a.author is None && b.author is None) || (a.author is Some && b.author is Some && same_but_case(
                a.author->Some_0,
                b.author->Some_0,
            )) ==> !comes_before(b.title, a.title) && (same_but_case(a.title, b.title) ==> a.id < b.id)
        }),
{
    books_listed(db, Sort::Author);
    let l = listed_books(db, Sort::Author);
    let key = |b: BookView| book_key(Sort::Author, b);
    let a = l[i];
    let b = l[j];
    assert(key_less(key(a), key(b)));
    caseless_says(a.title, b.title);
    caseless_says(b.title, a.title);
    lex_order(caseless(a.title), caseless(b.title));
    if a.author is Some && b.author is Some {
        let x = a.author->Some_0;
        let y = b.author->Some_0;
        caseless_says(x, y);
        caseless_says(y, x);
        lex_order(caseless(x), caseless(y));
        one_in_front(caseless(x), caseless(y), 1);
    } else if a.author is Some {
        let x = key(a).first;
        let y = key(b).first;
        assert(x[0] == 1 && y[0] == 0);
    } else if b.author is None {
        lex_order(key(a).first, key(b).first);
    }
}

/// In a list by when books were added, the latest comes first; of books added at
/// the same time, the one that has the lower number.
pub proof fn books_by_addition(db: DatabaseView, i: int, j: int)
    requires
        db.valid(),
        0 <= i < j < listed_books(db, Sort::RecentlyAdded).len(),
    ensures
        ({
            let a = listed_books(db, Sort::RecentlyAdded)[i];
            let b = listed_books(db, Sort::RecentlyAdded)[j];
            &&& a.added_at >= b.added_at
            &&& a.added_at == b.added_at ==> a.id < b.id
        }),
{
    books_listed(db, Sort::RecentlyAdded);
    let l = listed_books(db, Sort::RecentlyAdded);
    let key = |b: BookView| book_key(Sort::RecentlyAdded, b);
    let x = key(l[i]);
    let y = key(l[j]);
    assert(key_less(x, y));
    assert(x.first[0] == -(l[i].added_at as int) && y.first[0] == -(l[j].added_at as int));
    assert(x.first.len() == 1 && y.first.len() == 1);
    assert(x.second =~= y.second);
    lex_order(x.second, y.second);
    if x.first[0] == y.first[0] {
        assert(x.first =~= y.first);
        lex_order(x.first, y.first);
    }
}

proof fn times_in_order(s: Option<i64>, t: Option<i64>)
    ensures
        ({
            let x = latest_first(s);
            let y = latest_first(t);
            &&& lex_less(x, y) == match (s, t) {
                (Some(s), Some(t)) => s > t,
                (Some(_), None) => true,
                (None, _) => false,
            }
            &&& (x == y) == (s == t)
        }),
{
    let x = latest_first(s);
    let y = latest_first(t);
    reveal_with_fuel(lex_less, 4);
    match (s, t) {
        (Some(a), Some(b)) => {
            assert(x[0] == 0 && y[0] == 0);
            assert(x[1] == -(a as int) && y[1] == -(b as int));
            assert(x.drop_first()[0] == x[1] && y.drop_first()[0] == y[1]);
            assert(x.drop_first().drop_first().len() == 0 && y.drop_first().drop_first().len() == 0);
            if a == b {
                assert(x =~= y);
            }
        },
        (Some(a), None) => {
            assert(x[0] == 0 && y[0] == 1);
        },
        (None, Some(b)) => {
            assert(x[0] == 1 && y[0] == 0);
        },
        (None, None) => {
            lex_order(x, y);
        },
    }
}

/// In a list by when books were played, the latest comes first and those never
/// played last; of books played at the same time, or never, the one that was added
/// last comes first.
pub proof fn books_by_listening(db: DatabaseView, i: int, j: int)
    requires
        db.valid(),
        0 <= i < j < listed_books(db, Sort::RecentlyPlayed).len(),
    ensures
        ({
            let a = listed_books(db, Sort::RecentlyPlayed)[i];
            let b = listed_books(db, Sort::RecentlyPlayed)[j];
            &&& b.last_played is Some ==> a.last_played is Some && a.last_played->Some_0 >= b.last_played->Some_0
            &&& a.last_played == b.last_played ==> a.added_at >= b.added_at
            &&& a.last_played == b.last_played && a.added_at == b.added_at ==> a.id < b.id
        }),
{
    books_listed(db, Sort::RecentlyPlayed);
    let l = listed_books(db, Sort::RecentlyPlayed);
    let key = |b: BookView| book_key(Sort::RecentlyPlayed, b);
    let x = key(l[i]);
    let y = key(l[j]);
    assert(key_less(x, y));
    times_in_order(l[i].last_played, l[j].last_played);
    assert(x.second.len() == 1 && y.second.len() == 1);
    assert(x.second[0] == -(l[i].added_at as int) && y.second[0] == -(l[j].added_at as int));
    if x.second[0] == y.second[0] {
        assert(x.second =~= y.second);
        lex_order(x.second, y.second);
    }
}

// ---- bookmarks, history, tracks --------------------------------------------

/// The bookmarks of a book are listed by position, each once and none of another
/// book; of two at one position, the one that was set first comes first.
pub proof fn bookmarks_by_position(db: DatabaseView, id: i64)
    requires
        db.valid(),
    ensures
        ({
            let l = listing(db.bookmarks_in(id), |b: BookmarkView| bookmark_key(b));
            &&& forall|k: int| 0 <= k < db.bookmarks.len() && (#[trigger] db.bookmarks[k]).book_id == id ==> l.contains(db.bookmarks[k])
            &&& forall|i: int| 0 <= i < l.len() ==> (#[trigger] l[i]).book_id == id && db.bookmarks.contains(l[i])
            &&& forall|i: int, j: int|
                0 <= i < j < l.len() ==> (#[trigger] l[i]).position <= (#[trigger] l[j]).position && (l[i].position == l[j].position
                    ==> l[i].id < l[j].id)
        }),
{
    let p = |b: BookmarkView| b.book_id == id;
    let rows = db.bookmarks_in(id);
    let key = |b: BookmarkView| bookmark_key(b);
    let l = listing(rows, key);
    filter_from(db.bookmarks, p);
    assert forall|i: int, j: int|
        0 <= i < rows.len() && 0 <= j < rows.len() && key(#[trigger] rows[i]) == key(#[trigger] rows[j]) implies rows[i]
        == rows[j] by {
        assert(db.bookmarks.contains(rows[i]) && db.bookmarks.contains(rows[j]));
        let m = choose|m: int| 0 <= m < db.bookmarks.len() && db.bookmarks[m] == rows[i];
        let n = choose|n: int| 0 <= n < db.bookmarks.len() && db.bookmarks[n] == rows[j];
        assert(key(rows[i]).last == rows[i].id as int && key(rows[j]).last == rows[j].id as int);
        if m < n {
            assert(db.bookmarks[m].id < db.bookmarks[n].id);
        } else if n < m {
            assert(db.bookmarks[n].id < db.bookmarks[m].id);
        }
    }
    listing_exists(rows, key);
    assert forall|k: int| 0 <= k < db.bookmarks.len() && (#[trigger] db.bookmarks[k]).book_id == id implies l.contains(
        db.bookmarks[k],
    ) by {
        assert(db.bookmarks.contains(db.bookmarks[k]) && p(db.bookmarks[k]));
        assert(rows.contains(db.bookmarks[k]));
        let m = choose|m: int| 0 <= m < rows.len() && rows[m] == db.bookmarks[k];
        assert(l.contains(rows[m]));
    }
    assert forall|i: int| 0 <= i < l.len() implies (#[trigger] l[i]).book_id == id && db.bookmarks.contains(l[i]) by {
        assert(rows.contains(l[i]));
        let m = choose|m: int| 0 <= m < rows.len() && rows[m] == l[i];
        assert(p(rows[m]) && db.bookmarks.contains(rows[m]));
    }
    assert forall|i: int, j: int| 0 <= i < j < l.len() implies (#[trigger] l[i]).position <= (#[trigger] l[j]).position && (
    l[i].position == l[j].position ==> l[i].id < l[j].id) by {
        let x = key(l[i]);
        let y = key(l[j]);
        assert(key_less(x, y));
        assert(x.first.len() == 1 && y.first.len() == 1);
        assert(x.first[0] == l[i].position as int && y.first[0] == l[j].position as int);
        assert(x.second =~= y.second);
        lex_order(x.second, y.second);
        if x.first[0] == y.first[0] {
            assert(x.first =~= y.first);
            lex_order(x.first, y.first);
        }
    }
}

/// The history is listed with what was listened to last first, and what has no
/// date last; of entries with one date, the one that was made last comes first.
/// Each entry is listed once.
pub proof fn history_by_date(db: DatabaseView)
    requires
        db.valid(),
    ensures
        ({
            let l = listing(db.history, |h: HistoryView| history_key(h));
            &&& l.len() == db.history.len()
            &&& forall|k: int| 0 <= k < db.history.len() ==> l.contains(#[trigger] db.history[k])
            &&& forall|i: int| 0 <= i < l.len() ==> db.history.contains(#[trigger] l[i])
            &&& forall|i: int, j: int|
                0 <= i < j < l.len() ==> {
                    &&& (#[trigger] l[j]).last_played is Some ==> (#[trigger] l[i]).last_played is Some && l[i].last_played->Some_0
                        >= l[j].last_played->Some_0
                    &&& l[i].last_played == l[j].last_played ==> l[i].id > l[j].id
                }
        }),
{
    let rows = db.history;
    let key = |h: HistoryView| history_key(h);
    let l = listing(rows, key);
    assert forall|i: int, j: int|
        0 <= i < rows.len() && 0 <= j < rows.len() && key(#[trigger] rows[i]) == key(#[trigger] rows[j]) implies rows[i]
        == rows[j] by {
        assert(key(rows[i]).last == -(rows[i].id as int) && key(rows[j]).last == -(rows[j].id as int));
        one_entry_per_id(rows, i, j);
    }
    listing_exists(rows, key);
    listing_is(rows, key, l);
    assert forall|i: int, j: int| 0 <= i < j < rows.len() implies rows[i] != rows[j] by {
        assert(rows[i].id < rows[j].id);
    }
    assert forall|i: int, j: int| 0 <= i < j < l.len() implies {
        &&& (#[trigger] l[j]).last_played is Some ==> (#[trigger] l[i]).last_played is Some && l[i].last_played->Some_0
            >= l[j].last_played->Some_0
        &&& l[i].last_played == l[j].last_played ==> l[i].id > l[j].id
    } by {
        let x = key(l[i]);
        let y = key(l[j]);
        assert(key_less(x, y));
        assert(x.second =~= y.second);
        lex_order(x.second, y.second);
        times_in_order(l[i].last_played, l[j].last_played);
    }
}

/// The tracks of a book are listed by number, each once and none of another book.
pub proof fn tracks_by_number(db: DatabaseView, id: i64)
    requires
        db.valid(),
    ensures
        ({
            let l = listing(db.tracks_in(id), |t: TrackView| track_key(t));
            &&& forall|k: int| 0 <= k < db.tracks.len() && (#[trigger] db.tracks[k]).book_id == id ==> l.contains(db.tracks[k].track)
            &&& forall|i: int| 0 <= i < l.len() ==> db.tracks.contains(TrackRowView { book_id: id, track: #[trigger] l[i] })
            &&& forall|i: int, j: int| 0 <= i < j < l.len() ==> (#[trigger] l[i]).idx < (#[trigger] l[j]).idx
        }),
{
    let p = |t: TrackRowView| t.book_id == id;
    let f = |t: TrackRowView| t.track;
    let kept = db.tracks.filter(p);
    let rows = db.tracks_in(id);
    let key = |t: TrackView| track_key(t);
    let l = listing(rows, key);
    filter_from(db.tracks, p);
    filter_pairs(db.tracks, p, |a: TrackRowView, b: TrackRowView| a.book_id == b.book_id ==> a.track.idx != b.track.idx);
    assert forall|i: int, j: int| 0 <= i < j < rows.len() implies (#[trigger] rows[i]).idx != (#[trigger] rows[j]).idx by {
        assert(rows[i] == kept[i].track && rows[j] == kept[j].track);
        assert(p(kept[i]) && p(kept[j]));
    }
    assert forall|i: int, j: int|
        0 <= i < rows.len() && 0 <= j < rows.len() && key(#[trigger] rows[i]) == key(#[trigger] rows[j]) implies rows[i]
        == rows[j] by {
        assert(key(rows[i]).first[0] == key(rows[j]).first[0]);
        if i < j {
            assert(rows[i].idx != rows[j].idx);
        } else if j < i {
            assert(rows[j].idx != rows[i].idx);
        }
    }
    listing_exists(rows, key);
    assert forall|k: int| 0 <= k < db.tracks.len() && (#[trigger] db.tracks[k]).book_id == id implies l.contains(
        db.tracks[k].track,
    ) by {
        assert(db.tracks.contains(db.tracks[k]) && p(db.tracks[k]));
        assert(kept.contains(db.tracks[k]));
        let m = choose|m: int| 0 <= m < kept.len() && kept[m] == db.tracks[k];
        assert(rows[m] == db.tracks[k].track);
        assert(l.contains(rows[m]));
    }
    assert forall|i: int| 0 <= i < l.len() implies db.tracks.contains(TrackRowView { book_id: id, track: #[trigger] l[i] }) by {
        assert(rows.contains(l[i]));
        let m = choose|m: int| 0 <= m < rows.len() && rows[m] == l[i];
        assert(rows[m] == kept[m].track);
        assert(p(kept[m]) && db.tracks.contains(kept[m]));
        assert(kept[m] == TrackRowView { book_id: id, track: l[i] });
    }
    assert forall|i: int, j: int| 0 <= i < j < l.len() implies (#[trigger] l[i]).idx < (#[trigger] l[j]).idx by {
        let x = key(l[i]);
        let y = key(l[j]);
        assert(key_less(x, y));
        assert(x.first.len() == 1 && y.first.len() == 1);
        assert(x.first[0] == l[i].idx as int && y.first[0] == l[j].idx as int);
        assert(x.second =~= y.second);
        lex_order(x.second, y.second);
        if x.first[0] == y.first[0] {
            assert(x.first =~= y.first);
            lex_order(x.first, y.first);
        }
    }
}

} // verus!
