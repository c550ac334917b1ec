//! What the database holds at each place, and the record of the places that were
//! written: nothing changes without being told there.

use vstd::prelude::*;

use crate::library::db::ChangeView;
use crate::library::tables::{
    filter_from, has_key, has_path, key_has_place, next_bookmark_id, track_rows, BookRowView, DatabaseView, TrackRowView,
};
use crate::library::{BookView, BookmarkView, HistoryView, MetaView, TrackView};

verus! {

/// What is held at a place.
#[verifier::ext_equal]
pub enum HeldView {
    Location(bool),
    Setting(Option<Seq<char>>),
    Book(Seq<BookRowView>),
    Tracks(Seq<TrackView>),
    Bookmark(Seq<BookmarkView>),
    History(Seq<HistoryView>),
}

impl DatabaseView {
    /// What is held at a place.
    pub open spec fn held_at(self, place: ChangeView) -> HeldView {
        match place {
            ChangeView::Location(p) => HeldView::Location(self.locations.contains(p)),
            ChangeView::Setting(k) => HeldView::Setting(
                if self.settings.dom().contains(k) {
                    Some(self.settings[k])
                } else {
                    None
                },
            ),
            ChangeView::Book(id) => HeldView::Book(self.books.filter(|r: BookRowView| r.book.id == id)),
            ChangeView::Tracks(id) => HeldView::Tracks(self.tracks_in(id)),
            ChangeView::Bookmark(id) => HeldView::Bookmark(self.bookmarks.filter(|b: BookmarkView| b.id == id)),
            ChangeView::History(id) => HeldView::History(self.history.filter(|h: HistoryView| h.id == id)),
        }
    }
}

/// Whether every place at which two databases differ is among these.
pub open spec fn covers(before: DatabaseView, after: DatabaseView, places: Seq<ChangeView>) -> bool {
    forall|c: ChangeView| #[trigger] after.held_at(c) != before.held_at(c) ==> places.contains(c)
}

/// Whether a record goes on with every place that was written on the way from
/// one database to another.
#[verifier::opaque]
pub open spec fn recorded(before: DatabaseView, told: Seq<ChangeView>, after: DatabaseView, telling: Seq<ChangeView>) -> bool {
    &&& told.len() <= telling.len()
    &&& telling.take(told.len() as int) == told
    &&& covers(before, after, telling.skip(told.len() as int))
}

/// A record with the places that were written goes on rightly.
pub proof fn told_more(before: DatabaseView, told: Seq<ChangeView>, after: DatabaseView, places: Seq<ChangeView>)
    requires
        covers(before, after, places),
    ensures
        recorded(before, told, after, told + places),
{
    reveal(recorded);
    assert((told + places).take(told.len() as int) =~= told);
    assert((told + places).skip(told.len() as int) =~= places);
}

/// A record with the one place that was written goes on rightly.
pub proof fn told_one(before: DatabaseView, told: Seq<ChangeView>, after: DatabaseView, place: ChangeView)
    requires
        covers(before, after, seq![place]),
    ensures
        recorded(before, told, after, told.push(place)),
{
    told_more(before, told, after, seq![place]);
    assert(told + seq![place] =~= told.push(place));
}

/// Where nothing was written, there is nothing to tell.
pub proof fn told_nothing(db: DatabaseView, told: Seq<ChangeView>)
    ensures
        recorded(db, told, db, told),
{
    told_more(db, told, db, Seq::empty());
    assert(told + Seq::<ChangeView>::empty() =~= told);
}

/// Two steps that are each told are told together.
pub proof fn told_together(
    first: DatabaseView,
    a: Seq<ChangeView>,
    second: DatabaseView,
    b: Seq<ChangeView>,
    third: DatabaseView,
    c: Seq<ChangeView>,
)
    requires
        recorded(first, a, second, b),
        recorded(second, b, third, c),
    ensures
        recorded(first, a, third, c),
{
    reveal(recorded);
    let x = b.skip(a.len() as int);
    let y = c.skip(b.len() as int);
    let z = c.skip(a.len() as int);
    assert(c.take(a.len() as int) =~= c.take(b.len() as int).take(a.len() as int));
    assert(z =~= x + y) by {
        assert(c.take(b.len() as int) == b);
        assert forall|i: int| 0 <= i < z.len() implies z[i] == (x + y)[i] by {
            if i < x.len() {
                assert(c.take(b.len() as int)[a.len() + i] == b[a.len() + i]);
            }
        }
    }
    assert forall|p: ChangeView| #[trigger] third.held_at(p) != first.held_at(p) implies z.contains(p) by {
        if second.held_at(p) != first.held_at(p) {
            assert(x.contains(p));
            let k = choose|k: int| 0 <= k < x.len() && x[k] == p;
            assert((x + y)[k] == p);
        } else {
            assert(y.contains(p));
            let k = choose|k: int| 0 <= k < y.len() && y[k] == p;
            assert((x + y)[x.len() + k] == p);
        }
    }
}

// ---- what filtering keeps --------------------------------------------------

/// Filtering what another filter has left.
pub proof fn filters_apart<T>(s: Seq<T>, p: spec_fn(T) -> bool, q: spec_fn(T) -> bool)
    requires
        forall|x: T| #[trigger] q(x) ==> p(x),
    ensures
        s.filter(p).filter(q) == s.filter(q),
    decreases s.len(),
{
    reveal(Seq::filter);
    if s.len() > 0 {
        filters_apart(s.drop_last(), p, q);
        let kept = s.drop_last().filter(p);
        if p(s.last()) {
            assert(kept.push(s.last()).drop_last() =~= kept);
        }
    }
}

/// Filtering one list behind another.
pub proof fn filter_of_both<T>(a: Seq<T>, b: Seq<T>, p: spec_fn(T) -> bool)
    ensures
        (a + b).filter(p) == a.filter(p) + b.filter(p),
    decreases b.len(),
{
    reveal(Seq::filter);
    if b.len() == 0 {
        assert(a + b =~= a);
        assert(a.filter(p) + b.filter(p) =~= a.filter(p));
    } else {
        filter_of_both(a, b.drop_last(), p);
        assert((a + b).drop_last() =~= a + b.drop_last());
        if p(b.last()) {
            assert(a.filter(p) + b.drop_last().filter(p).push(b.last()) =~= (a.filter(p) + b.drop_last().filter(p)).push(
                b.last(),
            ));
        }
    }
}

/// A filter that none passes.
pub proof fn filter_none<T>(s: Seq<T>, p: spec_fn(T) -> bool)
    requires
        forall|i: int| 0 <= i < s.len() ==> !p(#[trigger] s[i]),
    ensures
        s.filter(p) == Seq::<T>::empty(),
    decreases s.len(),
{
    reveal(Seq::filter);
    if s.len() > 0 {
        assert forall|i: int| 0 <= i < s.drop_last().len() implies !p(#[trigger] s.drop_last()[i]) by {
            assert(!p(s[i]));
        }
        filter_none(s.drop_last(), p);
    }
}

/// Rows that are changed one by one, but for those that a filter keeps.
proof fn filter_beside<T>(s: Seq<T>, t: Seq<T>, p: spec_fn(T) -> bool)
    requires
        s.len() == t.len(),
        forall|i: int| 0 <= i < s.len() ==> p(#[trigger] s[i]) == p(t[i]) && (p(s[i]) ==> s[i] == t[i]),
    ensures
        s.filter(p) == t.filter(p),
    decreases s.len(),
{
    reveal(Seq::filter);
    if s.len() > 0 {
        let a = s.drop_last();
        let b = t.drop_last();
        assert forall|i: int| 0 <= i < a.len() implies p(#[trigger] a[i]) == p(b[i]) && (p(a[i]) ==> a[i] == b[i]) by {
            assert(p(s[i]) == p(t[i]));
        }
        filter_beside(a, b, p);
        assert(p(s[s.len() - 1]) == p(t[t.len() - 1]));
    }
}

proof fn filter_push<T>(s: Seq<T>, x: T, p: spec_fn(T) -> bool)
    requires
        !p(x),
    ensures
        s.push(x).filter(p) == s.filter(p),
{
    reveal(Seq::filter);
    assert(s.push(x).drop_last() =~= s);
}

// ---- what each operation writes --------------------------------------------

/// Remembering or forgetting a location writes that location alone.
pub proof fn location_is_told(db: DatabaseView, locations: Set<Seq<char>>, path: Seq<char>)
    requires
        locations == db.locations.insert(path) || locations == db.locations.remove(path),
    ensures
        covers(db, DatabaseView { locations, ..db }, seq![ChangeView::Location(path)]),
{
    assert(seq![ChangeView::Location(path)][0] == ChangeView::Location(path));
}

/// Setting a setting writes that setting alone.
pub proof fn setting_is_told(db: DatabaseView, key: Seq<char>, value: Seq<char>)
    ensures
        covers(
            db,
            DatabaseView { settings: db.settings.insert(key, value), ..db },
            seq![ChangeView::Setting(key)],
        ),
{
    assert(seq![ChangeView::Setting(key)][0] == ChangeView::Setting(key));
}

/// Putting a book in writes that book alone.
pub proof fn put_book_is_told(db: DatabaseView, path: Seq<char>, meta: MetaView, chapter_count: usize, multi: bool, now: i64)
    ensures
        covers(
            db,
            db.put_book(path, meta, chapter_count, multi, now),
            seq![ChangeView::Book(db.id_for_path(path))],
        ),
{
    let after = db.put_book(path, meta, chapter_count, multi, now);
    let id = db.id_for_path(path);
    let places = seq![ChangeView::Book(id)];
    assert(places[0] == ChangeView::Book(id));
    assert forall|c: ChangeView| #[trigger] after.held_at(c) != db.held_at(c) implies places.contains(c) by {
        if let ChangeView::Book(x) = c {
            let p = |r: BookRowView| r.book.id == x;
            if x != id {
                if has_path(db.books, path) {
                    filter_beside(db.books, after.books, p);
                } else {
                    filter_push(db.books, after.books.last(), p);
                }
            }
        }
    }
}

/// Replacing the tracks of a book writes the tracks of that book alone.
pub proof fn put_tracks_is_told(db: DatabaseView, id: i64, tracks: Seq<TrackView>)
    ensures
        covers(db, db.put_tracks(id, tracks), seq![ChangeView::Tracks(id)]),
{
    let after = db.put_tracks(id, tracks);
    let places = seq![ChangeView::Tracks(id)];
    assert(places[0] == ChangeView::Tracks(id));
    assert forall|c: ChangeView| #[trigger] after.held_at(c) != db.held_at(c) implies places.contains(c) by {
        if let ChangeView::Tracks(x) = c {
            if x != id {
                let p = |t: TrackRowView| t.book_id != id;
                let q = |t: TrackRowView| t.book_id == x;
                let rows = track_rows(id, tracks);
                filters_apart(db.tracks, p, q);
                filter_none(rows, q);
                filter_of_both(db.tracks.filter(p), rows, q);
                assert(db.tracks.filter(q) + Seq::<TrackRowView>::empty() =~= db.tracks.filter(q));
            }
        }
    }
}

/// Changing a book, but for its id, writes that book alone.
pub proof fn change_book_is_told(db: DatabaseView, id: i64, f: spec_fn(BookView) -> BookView)
    requires
        forall|b: BookView| (#[trigger] f(b)).id == b.id,
    ensures
        covers(db, db.change_book(id, f), seq![ChangeView::Book(id)]),
{
    let after = db.change_book(id, f);
    let places = seq![ChangeView::Book(id)];
    assert(places[0] == ChangeView::Book(id));
    assert forall|c: ChangeView| #[trigger] after.held_at(c) != db.held_at(c) implies places.contains(c) by {
        if let ChangeView::Book(x) = c {
            if x != id {
                filter_beside(db.books, after.books, |r: BookRowView| r.book.id == x);
            }
        }
    }
}

/// The places that removing a book writes: the book, its tracks and each of its
/// bookmarks.
pub open spec fn removal_of(db: DatabaseView, id: i64) -> Seq<ChangeView> {
    seq![ChangeView::Book(id), ChangeView::Tracks(id)] + db.bookmarks_in(id).map_values(
        |b: BookmarkView| ChangeView::Bookmark(b.id),
    )
}

/// Removing a book writes that book, its tracks and its bookmarks alone.
pub proof fn removal_is_told(db: DatabaseView, id: i64)
    ensures
        covers(db, db.without_book(id), removal_of(db, id)),
{
    let after = db.without_book(id);
    let places = removal_of(db, id);
    let marks = db.bookmarks_in(id);
    assert(places[0] == ChangeView::Book(id) && places[1] == ChangeView::Tracks(id));
    assert forall|c: ChangeView| #[trigger] after.held_at(c) != db.held_at(c) implies places.contains(c) by {
        match c {
            ChangeView::Book(x) => {
                if x != id {
                    filters_apart(db.books, |r: BookRowView| r.book.id != id, |r: BookRowView| r.book.id == x);
                }
            },
            ChangeView::Tracks(x) => {
                if x != id {
                    filters_apart(db.tracks, |t: TrackRowView| t.book_id != id, |t: TrackRowView| t.book_id == x);
                }
            },
            ChangeView::Bookmark(x) => {
                if !places.contains(c) {
                    let p = |b: BookmarkView| b.book_id != id;
                    let q = |b: BookmarkView| b.id == x;
                    let own = |b: BookmarkView| b.book_id == id;
                    filter_from(db.bookmarks, own);
                    assert forall|i: int| 0 <= i < db.bookmarks.len() && q(#[trigger] db.bookmarks[i]) implies p(
                        db.bookmarks[i],
                    ) by {
                        if !p(db.bookmarks[i]) {
                            let b = db.bookmarks[i];
                            assert(db.bookmarks.contains(b) && own(b));
                            assert(marks.contains(b));
                            let k = choose|k: int| 0 <= k < marks.len() && marks[k] == b;
                            assert(places[2 + k] == c);
                        }
                    }
                    filter_within(db.bookmarks, p, q);
                }
            },
            _ => {},
        }
    }
}

/// Filtering what another filter has left, where it has left all that counts.
proof fn filter_within<T>(s: Seq<T>, p: spec_fn(T) -> bool, q: spec_fn(T) -> bool)
    requires
        forall|i: int| 0 <= i < s.len() && q(#[trigger] s[i]) ==> p(s[i]),
    ensures
        s.filter(p).filter(q) == s.filter(q),
    decreases s.len(),
{
    reveal(Seq::filter);
    if s.len() > 0 {
        let t = s.drop_last();
        assert forall|i: int| 0 <= i < t.len() && q(#[trigger] t[i]) implies p(t[i]) by {
            assert(q(s[i]));
        }
        filter_within(t, p, q);
        let kept = t.filter(p);
        assert(q(s[s.len() - 1]) ==> p(s[s.len() - 1]));
        if p(s.last()) {
            assert(kept.push(s.last()).drop_last() =~= kept);
        }
    }
}

/// Setting a bookmark writes that bookmark alone.
pub proof fn put_bookmark_is_told(db: DatabaseView, book_id: i64, position: nat, label: Seq<char>)
    ensures
        covers(
            db,
            db.put_bookmark(book_id, position, label),
            seq![ChangeView::Bookmark(next_bookmark_id(db.bookmarks) as i64)],
        ),
{
    let after = db.put_bookmark(book_id, position, label);
    let id = next_bookmark_id(db.bookmarks) as i64;
    let places = seq![ChangeView::Bookmark(id)];
    assert(places[0] == ChangeView::Bookmark(id));
    assert forall|c: ChangeView| #[trigger] after.held_at(c) != db.held_at(c) implies places.contains(c) by {
        if let ChangeView::Bookmark(x) = c {
            if x != id {
                filter_push(db.bookmarks, after.bookmarks.last(), |b: BookmarkView| b.id == x);
            }
        }
    }
}

/// Removing a bookmark writes that bookmark alone.
pub proof fn without_bookmark_is_told(db: DatabaseView, id: i64)
    ensures
        covers(db, db.without_bookmark(id), seq![ChangeView::Bookmark(id)]),
{
    let after = db.without_bookmark(id);
    let places = seq![ChangeView::Bookmark(id)];
    assert(places[0] == ChangeView::Bookmark(id));
    assert forall|c: ChangeView| #[trigger] after.held_at(c) != db.held_at(c) implies places.contains(c) by {
        if let ChangeView::Bookmark(x) = c {
            if x != id {
                filters_apart(db.bookmarks, |b: BookmarkView| b.id != id, |b: BookmarkView| b.id == x);
            }
        }
    }
}

/// Keeping a history entry writes that entry alone.
pub proof fn put_entry_is_told(db: DatabaseView, book: BookView, finished: bool, manual: bool, now: i64)
    ensures
        covers(
            db,
            db.put_entry(book, finished, manual, now),
            seq![ChangeView::History(db.id_for_key(book.path))],
        ),
{
    let after = db.put_entry(book, finished, manual, now);
    let id = db.id_for_key(book.path);
    let places = seq![ChangeView::History(id)];
    assert(places[0] == ChangeView::History(id));
    assert forall|c: ChangeView| #[trigger] after.held_at(c) != db.held_at(c) implies places.contains(c) by {
        if let ChangeView::History(x) = c {
            let p = |h: HistoryView| h.id == x;
            if x != id {
                if has_key(db.history, book.path) {
                    key_has_place(db.history, book.path);
                    filter_beside(db.history, after.history, p);
                } else {
                    filter_push(db.history, after.history.last(), p);
                }
            }
        }
    }
}

/// Changing a history entry, but for its id, writes that entry alone.
pub proof fn change_entry_is_told(db: DatabaseView, id: i64, f: spec_fn(HistoryView) -> HistoryView)
    requires
        forall|h: HistoryView| (#[trigger] f(h)).id == h.id,
    ensures
        covers(db, db.change_entry(id, f), seq![ChangeView::History(id)]),
{
    let after = db.change_entry(id, f);
    let places = seq![ChangeView::History(id)];
    assert(places[0] == ChangeView::History(id));
    assert forall|c: ChangeView| #[trigger] after.held_at(c) != db.held_at(c) implies places.contains(c) by {
        if let ChangeView::History(x) = c {
            if x != id {
                filter_beside(db.history, after.history, |h: HistoryView| h.id == x);
            }
        }
    }
}

/// Removing a history entry writes that entry alone.
pub proof fn without_entry_is_told(db: DatabaseView, id: i64)
    ensures
        covers(db, db.without_entry(id), seq![ChangeView::History(id)]),
{
    let after = db.without_entry(id);
    let places = seq![ChangeView::History(id)];
    assert(places[0] == ChangeView::History(id));
    assert forall|c: ChangeView| #[trigger] after.held_at(c) != db.held_at(c) implies places.contains(c) by {
        if let ChangeView::History(x) = c {
            if x != id {
                filters_apart(db.history, |h: HistoryView| h.id != id, |h: HistoryView| h.id == x);
            }
        }
    }
}

} // verus!
