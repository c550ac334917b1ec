//! The library database: books, resume positions, storage roots, bookmarks,
//! settings and "My History".

use vstd::prelude::*;

use crate::library::journal::{
    change_book_is_told, change_entry_is_told, location_is_told, put_book_is_told, put_bookmark_is_told,
    put_entry_is_told, put_tracks_is_told, recorded, removal_is_told, removal_of, setting_is_told, told_more, told_nothing,
    told_one, told_together, without_bookmark_is_told, without_entry_is_told,
};
use crate::library::tables::{
    bookmark_key, bookmarks_valid, book_key, books_valid, caseless, change_book_keeps_valid, change_entry_keeps_valid, distinct_tracks,
    filter_from, filter_pairs, filter_step, has_book, has_entry, has_key, has_path, history_key, history_valid, kept_rating, keys_fit, latest_first,
    next_bookmark_id, new_book, new_entry, one_book_per_id, one_book_per_path, one_entry_per_id, one_first_place,
    place_of_book, place_of_key, place_of_path, put_book_keeps_valid, put_bookmark_keeps_valid,
    put_entry_keeps_valid, put_multi_book_keeps_valid, refreshed_book, refreshed_entry, track_key, track_rows, tracks_valid,
    without_book_keeps_valid, without_bookmark_keeps_valid, without_entry_keeps_valid, BookRowView, DatabaseView,
    TrackRowView, MAX_RATING, NORMAL_SPEED_BITS,
};
use crate::library::{
    copy_cover, copy_text, keep, text_of, view_of, views, Book, BookMeta, BookView, Bookmark, BookmarkView, HistoryEntry,
    HistoryView, MetaView, Track, TrackView,
};
use crate::order;
use crate::order::{
    arrange, arranged_is_listing, code_of, codes, is_listing, key_less, listing, text_before, text_first, text_order, Key,
    KeyView,
};
use crate::text;
use crate::time::Duration;

pub use crate::library::tables::Sort;

verus! {

/// Why the database refused an operation.
#[derive(Debug, Clone, Copy, PartialEq, Eq, Structural)]
pub enum DbError {
    /// There is no book with this id to refer to.
    NoSuchBook,
    /// Two tracks of a book have one number.
    RepeatedTrack,
    /// Every id has been given out.
    Full,
    /// Stored rows contradict each other.
    Inconsistent,
    /// A speed that is not a number cannot be stored.
    NotANumber,
}

impl DbError {
    /// The error in words.
    pub open spec fn text(self) -> Seq<char> {
        match self {
            DbError::NoSuchBook => "no such book"@,
            DbError::RepeatedTrack => "two tracks have the same number"@,
            DbError::Full => "no id is left"@,
            DbError::Inconsistent => "stored rows contradict each other"@,
            DbError::NotANumber => "a speed is not a number"@,
        }
    }

    /// The error in words.
    pub fn message(&self) -> (r: String)
        ensures
            r@ == self.text(),
    {
        match self {
            DbError::NoSuchBook => "no such book".to_owned(),
            DbError::RepeatedTrack => "two tracks have the same number".to_owned(),
            DbError::Full => "no id is left".to_owned(),
            DbError::Inconsistent => "stored rows contradict each other".to_owned(),
            DbError::NotANumber => "a speed is not a number".to_owned(),
        }
    }
}

/// A book as the database keeps it.
#[derive(Debug)]
pub struct BookRow {
    pub book: Book,
    /// The album that the book's files name.
    pub album: Option<String>,
}

impl View for BookRow {
    type V = BookRowView;

    open spec fn view(&self) -> BookRowView {
        BookRowView { book: self.book@, album: text_of(self.album) }
    }
}

/// A track as the database keeps it.
#[derive(Debug)]
pub struct TrackRow {
    pub book_id: i64,
    pub track: Track,
}

impl View for TrackRow {
    type V = TrackRowView;

    open spec fn view(&self) -> TrackRowView {
        TrackRowView { book_id: self.book_id, track: self.track@ }
    }
}

/// A setting and its value.
#[derive(Debug)]
pub struct Setting {
    pub key: String,
    pub value: String,
}

/// The place of something that was written since the changes were last taken.
#[derive(Debug)]
pub enum Change {
    Location(String),
    Setting(String),
    Book(i64),
    Tracks(i64),
    Bookmark(i64),
    History(i64),
}

/// What a [`Change`] names.
pub enum ChangeView {
    Location(Seq<char>),
    Setting(Seq<char>),
    Book(i64),
    Tracks(i64),
    Bookmark(i64),
    History(i64),
}

impl View for Change {
    type V = ChangeView;

    open spec fn view(&self) -> ChangeView {
        match self {
            Change::Location(p) => ChangeView::Location(p@),
            Change::Setting(k) => ChangeView::Setting(k@),
            Change::Book(id) => ChangeView::Book(*id),
            Change::Tracks(id) => ChangeView::Tracks(*id),
            Change::Bookmark(id) => ChangeView::Bookmark(*id),
            Change::History(id) => ChangeView::History(*id),
        }
    }
}

/// `std::time::SystemTime::elapsed`, of the Unix epoch, in whole seconds; nothing
/// where the clock stands before it. Nothing is claimed of the number: it is
/// whatever the clock of the machine says.
#[verifier::external_body]
fn unix_clock() -> (r: Option<u64>) {
    std::time::UNIX_EPOCH.elapsed().ok().map(|d| d.as_secs())
}

/// A reading of the clock as a time stamp: its lowest 64 bits as a signed
/// number, and the epoch itself for a clock that stands before it.
pub open spec fn stamp_of(clock: Option<u64>) -> int {
    match clock {
        Some(s) => if s <= i64::MAX { s as int } else { s - 0x1_0000_0000_0000_0000 },
        None => 0,
    }
}

/// A reading of the clock as a time stamp.
pub fn stamp(clock: Option<u64>) -> (r: i64)
    ensures
        r == stamp_of(clock),
{
    match clock {
        Some(s) => {
            if s > i64::MAX as u64 {
                (s as i128 - 0x1_0000_0000_0000_0000) as i64
            } else {
                s as i64
            }
        },
        None => 0,
    }
}

/// The time, in seconds since the Unix epoch: the [`stamp`] of what the clock
/// says. Any number can be such a stamp, so nothing is claimed of it.
pub(crate) fn now_unix() -> i64 {
    stamp(unix_clock())
}

/// What comes of putting a book in at time `now`: its id, or nothing done
/// because there is no id left.
pub open spec fn book_put(
    before: DatabaseView,
    path: Seq<char>,
    meta: MetaView,
    now: i64,
    after: DatabaseView,
    r: Result<i64, DbError>,
) -> bool {
    if before.can_put_book(path) {
        &&& r == Ok::<i64, DbError>(before.id_for_path(path))
        &&& after == before.put_book(path, meta, meta.chapters.len() as usize, false, now)
    } else {
        &&& r == Err::<i64, DbError>(DbError::Full)
        &&& after == before
    }
}

/// What comes of putting a multi-file book in at time `now`. Where two tracks
/// share a number the book is there all the same, with the tracks before the
/// second of them.
pub open spec fn multi_book_put(
    before: DatabaseView,
    path: Seq<char>,
    meta: MetaView,
    tracks: Seq<TrackView>,
    now: i64,
    after: DatabaseView,
    r: Result<i64, DbError>,
) -> bool {
    if before.can_put_book(path) {
        &&& r == if distinct_tracks(tracks) == tracks.len() {
            Ok::<i64, DbError>(before.id_for_path(path))
        } else {
            Err::<i64, DbError>(DbError::RepeatedTrack)
        }
        &&& after == before.put_multi_book(path, meta, tracks, now)
    } else {
        &&& r == Err::<i64, DbError>(DbError::Full)
        &&& after == before
    }
}

/// What comes of keeping a history entry for a book at time `now`.
pub open spec fn entry_put(
    before: DatabaseView,
    book: BookView,
    finished: bool,
    manual: bool,
    now: i64,
    after: DatabaseView,
    r: Result<(), DbError>,
) -> bool {
    if before.can_put_entry(book.path) {
        &&& r == Ok::<(), DbError>(())
        &&& after == before.put_entry(book, finished, manual, now)
    } else {
        &&& r == Err::<(), DbError>(DbError::Full)
        &&& after == before
    }
}

/// A book where the listener has come to another position.
pub open spec fn moved_to(position: nat, finished: bool, now: i64) -> spec_fn(BookView) -> BookView {
    |b: BookView| BookView { position, finished, last_played: Some(now), ..b }
}

/// Whether the bits of a 32-bit float stand for no number.
pub open spec fn not_a_number(bits: u32) -> bool {
    bits % 0x8000_0000 > 0x7f80_0000
}

/// A book that is played at another speed.
pub open spec fn played_at(speed_bits: u32) -> spec_fn(BookView) -> BookView {
    |b: BookView| BookView { speed_bits, ..b }
}

/// A history entry that is rated, no better than the best.
pub open spec fn rated(rating: Option<u8>) -> spec_fn(HistoryView) -> HistoryView {
    |h: HistoryView| HistoryView { rating: kept_rating(rating), ..h }
}

/// A history entry with another note.
pub open spec fn noted(note: Seq<char>) -> spec_fn(HistoryView) -> HistoryView {
    |h: HistoryView| HistoryView { note, ..h }
}

/// A history entry of a book that was last listened to at `epoch`.
pub open spec fn listened_at(epoch: i64) -> spec_fn(HistoryView) -> HistoryView {
    |h: HistoryView| HistoryView { last_played: Some(epoch), ..h }
}

/// Once a number is taken, more tracks do not help.
proof fn distinct_stays(tracks: Seq<TrackView>, n: int)
    requires
        0 <= n <= tracks.len(),
        distinct_tracks(tracks.take(n)) < n,
    ensures
        distinct_tracks(tracks) == distinct_tracks(tracks.take(n)),
    decreases tracks.len(),
{
    if n == tracks.len() {
        assert(tracks.take(n) =~= tracks);
    } else {
        let t = tracks.drop_last();
        assert(t.take(n) =~= tracks.take(n));
        distinct_stays(t, n);
    }
}

/// The rows in the order of their keys.
fn listed<T: View, F: Fn(&T) -> T>(rows: &Vec<T>, keys: &Vec<Key>, copy: F, Ghost(key): Ghost<spec_fn(T::V) -> KeyView>) -> (r: Vec<T>)
    requires
        keys.len() == rows.len(),
        forall|i: int| 0 <= i < keys.len() ==> (#[trigger] keys@[i])@ == key(rows@[i]@),
        forall|i: int, j: int| 0 <= i < j < keys.len() ==> (#[trigger] keys@[i])@ != (#[trigger] keys@[j])@,
        forall|x: &T| copy.requires((x,)),
        forall|x: &T, y: T| copy.ensures((x,), y) ==> y@ == x@,
    ensures
        views(r@) == listing(views(rows@), key),
        is_listing(views(rows@), key, views(r@)),
        r.len() == rows.len(),
{
    let places = arrange(keys);
    let mut out: Vec<T> = Vec::new();
    let mut i: usize = 0;
    while i < places.len()
        invariant
            i <= places.len(),
            places.len() == rows.len(),
            out.len() == i,
            forall|k: int| 0 <= k < places.len() ==> #[trigger] places@[k] < rows.len(),
            forall|k: int| 0 <= k < i ==> (#[trigger] out@[k])@ == rows@[places@[k] as int]@,
            forall|x: &T| copy.requires((x,)),
            forall|x: &T, y: T| copy.ensures((x,), y) ==> y@ == x@,
        decreases places.len() - i,
    {
        out.push(copy(&rows[places[i]]));
        i = i + 1;
    }
    proof {
        let v = views(rows@);
        let o = places@;
        assert forall|i: int, j: int| 0 <= i < j < o.len() implies !key_less(key(v[o[j] as int]), key(v[o[i] as int])) by {
            assert(keys@[o[j] as int]@ == key(rows@[o[j] as int]@));
            assert(keys@[o[i] as int]@ == key(rows@[o[i] as int]@));
        }
        assert forall|i: int, j: int| 0 <= i < j < v.len() implies key(#[trigger] v[i]) != key(#[trigger] v[j]) by {
            assert(keys@[i]@ != keys@[j]@);
        }
        arranged_is_listing(v, key, o, views(out@));
    }
    out
}

/// A text as it counts in an order that takes ASCII capitals for small letters.
fn push_caseless(out: &mut Vec<i128>, s: &str)
    ensures
        order::ints(final(out)@) == order::ints(old(out)@) + caseless(s@),
{
    let ghost before = out@;
    let cs = text::chars_of(s);
    let mut i: usize = 0;
    while i < cs.len()
        invariant
            i <= cs.len(),
            out.len() == before.len() + i,
            forall|k: int| 0 <= k < before.len() ==> #[trigger] out@[k] == before[k],
            forall|k: int| before.len() <= k < out.len() ==> #[trigger] out@[k] == text::ascii_lower(cs@[k - before.len()]) as int,
        decreases cs.len() - i,
    {
        out.push(code_of(text::lower_char(cs[i])));
        i = i + 1;
    }
    assert(order::ints(out@) =~= order::ints(before) + caseless(s@));
}

fn latest_first_key(t: Option<i64>) -> (r: Vec<i128>)
    ensures
        order::ints(r@) == latest_first(t),
{
    let r: Vec<i128> = match t {
        Some(t) => {
            let turned: i128 = -(t as i128);
            vec![0, turned]
        },
        None => vec![1],
    };
    assert(order::ints(r@) =~= latest_first(t));
    r
}

/// What books are ordered by.
fn sort_key(sort: Sort, b: &Book) -> (r: Key)
    ensures
        r@ == book_key(sort, b@),
{
    let mut first: Vec<i128> = Vec::new();
    let mut second: Vec<i128> = Vec::new();
    match sort {
        Sort::Title => {
            push_caseless(&mut first, b.title.as_str());
        },
        Sort::Author => {
            match &b.author {
                Some(a) => {
                    first.push(1);
                    push_caseless(&mut first, a.as_str());
                },
                None => {
                    first.push(0);
                },
            }
            push_caseless(&mut second, b.title.as_str());
        },
        Sort::RecentlyAdded => {
            first.push(-(b.added_at as i128));
        },
        Sort::RecentlyPlayed => {
            first = latest_first_key(b.last_played);
            second.push(-(b.added_at as i128));
        },
    }
    let r = Key { first, second, last: b.id as i128 };
    assert(r@.first =~= book_key(sort, b@).first);
    assert(r@.second =~= book_key(sort, b@).second);
    r
}

/// A database that was not written to has nothing to record.
pub broadcast proof fn unwritten_records_nothing(db: Database)
    ensures
        #[trigger] db.records(db),
{
    told_nothing(db@, db.changes());
}

/// Steps that are each recorded are recorded together.
pub broadcast proof fn records_carry_over(a: Database, b: Database, c: Database)
    requires
        #[trigger] b.records(a),
        #[trigger] c.records(b),
    ensures
        c.records(a),
{
    told_together(a@, a.changes(), b@, b.changes(), c@, c.changes());
}

/// How records follow from each other.
pub broadcast group group_records {
    unwritten_records_nothing,
    records_carry_over,
}

/// The library database.
pub struct Database {
    locations: Vec<String>,
    settings: Vec<Setting>,
    books: Vec<BookRow>,
    tracks: Vec<TrackRow>,
    bookmarks: Vec<Bookmark>,
    history: Vec<HistoryEntry>,
    changes: Vec<Change>,
}

/// Whether some setting has this key.
pub open spec fn has_setting(settings: Seq<Setting>, key: Seq<char>) -> bool {
    exists|i: int| 0 <= i < settings.len() && (#[trigger] settings[i]).key@ == key
}

/// Where the setting with this key stands.
pub open spec fn setting_place(settings: Seq<Setting>, key: Seq<char>) -> int {
    choose|i: int| 0 <= i < settings.len() && (#[trigger] settings[i]).key@ == key
}

/// The value of each setting.
pub open spec fn settings_map(settings: Seq<Setting>) -> Map<Seq<char>, Seq<char>> {
    Map::new(
        |k: Seq<char>| has_setting(settings, k),
        |k: Seq<char>| settings[setting_place(settings, k)].value@,
    )
}

/// Whether the locations stand in the order of their code points, each once.
pub open spec fn locations_ordered(locations: Seq<String>) -> bool {
    forall|i: int, j: int|
        0 <= i < j < locations.len() ==> text_before((#[trigger] locations[i])@, (#[trigger] locations[j])@)
}

/// Whether no two settings share a key.
pub open spec fn settings_differ(settings: Seq<Setting>) -> bool {
    forall|i: int, j: int|
        0 <= i < j < settings.len() ==> (#[trigger] settings[i]).key@ != (#[trigger] settings[j]).key@
}

/// The contents of a database that holds these rows.
pub open spec fn stored(
    locations: Seq<String>,
    settings: Seq<Setting>,
    books: Seq<BookRow>,
    tracks: Seq<TrackRow>,
    bookmarks: Seq<Bookmark>,
    history: Seq<HistoryEntry>,
) -> DatabaseView {
    DatabaseView {
        locations: views(locations).to_set(),
        settings: settings_map(settings),
        books: views(books),
        tracks: views(tracks),
        bookmarks: views(bookmarks),
        history: views(history),
    }
}

fn locations_fit(v: &Vec<String>) -> (r: bool)
    ensures
        r == locations_ordered(v@),
{
    let mut n: usize = 1;
    while n < v.len()
        invariant
            1 <= n,
            forall|i: int, j: int|
                0 <= i < j < n && j < v.len() ==> text_before((#[trigger] v@[i])@, (#[trigger] v@[j])@),
        decreases v.len() - n,
    {
        if !text_first(v[n - 1].as_str(), v[n].as_str()) {
            assert(!text_before(v@[n - 1]@, v@[n as int]@));
            return false;
        }
        proof {
            assert forall|i: int, j: int| 0 <= i < j < n + 1 && j < v.len() implies text_before(
                (#[trigger] v@[i])@,
                (#[trigger] v@[j])@,
            ) by {
                if j == n && i < n - 1 {
                    assert(text_before(v@[i]@, v@[n - 1]@));
                    order::lex_transitive(codes(v@[i]@), codes(v@[n - 1]@), codes(v@[n as int]@));
                }
            }
        }
        n = n + 1;
    }
    true
}

fn settings_fit(v: &Vec<Setting>) -> (r: bool)
    ensures
        r == settings_differ(v@),
{
    let mut j: usize = 0;
    while j < v.len()
        invariant
            j <= v.len(),
            forall|a: int, b: int| 0 <= a < b < j ==> (#[trigger] v@[a]).key@ != (#[trigger] v@[b]).key@,
        decreases v.len() - j,
    {
        let mut i: usize = 0;
        while i < j
            invariant
                i <= j < v.len(),
                forall|a: int| 0 <= a < i ==> (#[trigger] v@[a]).key@ != v@[j as int].key@,
            decreases j - i,
        {
            if text::same(v[i].key.as_str(), v[j].key.as_str()) {
                return false;
            }
            i = i + 1;
        }
        j = j + 1;
    }
    true
}

fn books_fit(v: &Vec<BookRow>) -> (r: bool)
    ensures
        r == books_valid(views(v@)),
{
    let ghost w = views(v@);
    let mut j: usize = 0;
    while j < v.len()
        invariant
            j <= v.len(),
            w == views(v@),
            forall|a: int, b: int| 0 <= a < b < j ==> (#[trigger] w[a]).book.id < (#[trigger] w[b]).book.id,
            forall|a: int, b: int| 0 <= a < b < j ==> (#[trigger] w[a]).book.path != (#[trigger] w[b]).book.path,
        decreases v.len() - j,
    {
        assert(w[j as int] == v@[j as int]@);
        let mut i: usize = 0;
        while i < j
            invariant
                i <= j < v.len(),
                w == views(v@),
                w[j as int] == v@[j as int]@,
                forall|a: int| 0 <= a < i ==> (#[trigger] w[a]).book.id < w[j as int].book.id,
                forall|a: int| 0 <= a < i ==> (#[trigger] w[a]).book.path != w[j as int].book.path,
            decreases j - i,
        {
            assert(w[i as int] == v@[i as int]@);
            if v[i].book.id >= v[j].book.id {
                return false;
            }
            if text::same(v[i].book.path.as_str(), v[j].book.path.as_str()) {
                return false;
            }
            i = i + 1;
        }
        j = j + 1;
    }
    true
}

fn book_is_there(v: &Vec<BookRow>, id: i64) -> (r: bool)
    ensures
        r == has_book(views(v@), id),
{
    let ghost w = views(v@);
    let mut i: usize = 0;
    while i < v.len()
        invariant
            i <= v.len(),
            w == views(v@),
            forall|a: int| 0 <= a < i ==> (#[trigger] w[a]).book.id != id,
        decreases v.len() - i,
    {
        assert(w[i as int] == v@[i as int]@);
        if v[i].book.id == id {
            return true;
        }
        i = i + 1;
    }
    false
}

fn tracks_fit(v: &Vec<TrackRow>, books: &Vec<BookRow>) -> (r: bool)
    ensures
        r == tracks_valid(views(v@), views(books@)),
{
    let ghost w = views(v@);
    let mut j: usize = 0;
    while j < v.len()
        invariant
            j <= v.len(),
            w == views(v@),
            forall|a: int| 0 <= a < j ==> has_book(views(books@), (#[trigger] w[a]).book_id),
            forall|a: int, b: int|
                0 <= a < b < j && (#[trigger] w[a]).book_id == (#[trigger] w[b]).book_id ==> w[a].track.idx
                    != w[b].track.idx,
        decreases v.len() - j,
    {
        assert(w[j as int] == v@[j as int]@);
        if !book_is_there(books, v[j].book_id) {
            return false;
        }
        let mut i: usize = 0;
        while i < j
            invariant
                i <= j < v.len(),
                w == views(v@),
                w[j as int] == v@[j as int]@,
                forall|a: int|
                    0 <= a < i && (#[trigger] w[a]).book_id == w[j as int].book_id ==> w[a].track.idx
                        != w[j as int].track.idx,
            decreases j - i,
        {
            assert(w[i as int] == v@[i as int]@);
            if v[i].book_id == v[j].book_id && v[i].track.idx == v[j].track.idx {
                return false;
            }
            i = i + 1;
        }
        j = j + 1;
    }
    true
}

fn bookmarks_fit(v: &Vec<Bookmark>, books: &Vec<BookRow>) -> (r: bool)
    ensures
        r == bookmarks_valid(views(v@), views(books@)),
{
    let ghost w = views(v@);
    let mut j: usize = 0;
    while j < v.len()
        invariant
            j <= v.len(),
            w == views(v@),
            forall|a: int| 0 <= a < j ==> has_book(views(books@), (#[trigger] w[a]).book_id),
            forall|a: int, b: int| 0 <= a < b < j ==> (#[trigger] w[a]).id < (#[trigger] w[b]).id,
        decreases v.len() - j,
    {
        assert(w[j as int] == v@[j as int]@);
        if !book_is_there(books, v[j].book_id) {
            return false;
        }
        if j > 0 {
            assert(w[j - 1] == v@[j - 1]@);
            if v[j - 1].id >= v[j].id {
                return false;
            }
        }
        j = j + 1;
    }
    true
}

fn history_fits(v: &Vec<HistoryEntry>) -> (r: bool)
    ensures
        r == history_valid(views(v@)),
{
    let ghost w = views(v@);
    let mut j: usize = 0;
    while j < v.len()
        invariant
            j <= v.len(),
            w == views(v@),
            forall|a: int, b: int| 0 <= a < b < j ==> (#[trigger] w[a]).id < (#[trigger] w[b]).id,
            forall|a: int, b: int| 0 <= a < b < j ==> keys_fit(#[trigger] w[a], #[trigger] w[b]),
            forall|a: int| 0 <= a < j ==> ((#[trigger] w[a]).rating matches Some(r) ==> r <= MAX_RATING),
        decreases v.len() - j,
    {
        assert(w[j as int] == v@[j as int]@);
        match v[j].rating {
            Some(r) => {
                if r > MAX_RATING {
                    return false;
                }
            },
            None => {},
        }
        let mut i: usize = 0;
        while i < j
            invariant
                i <= j < v.len(),
                w == views(v@),
                w[j as int] == v@[j as int]@,
                forall|a: int| 0 <= a < i ==> (#[trigger] w[a]).id < w[j as int].id,
                forall|a: int| 0 <= a < i ==> keys_fit(#[trigger] w[a], w[j as int]),
            decreases j - i,
        {
            assert(w[i as int] == v@[i as int]@);
            if v[i].id >= v[j].id {
                return false;
            }
            if v[i].keyed && v[j].keyed && text::same(v[i].book_key.as_str(), v[j].book_key.as_str()) {
                return false;
            }
            i = i + 1;
        }
        j = j + 1;
    }
    true
}

/// A stored rating as stars, 0 to 5.
pub fn stored_rating(rating: Option<i64>) -> (r: Option<u8>)
    ensures
        r == match rating {
            Some(v) => Some((if v < 0 { 0 } else if v > MAX_RATING { MAX_RATING as int } else { v as int }) as u8),
            None => None::<u8>,
        },
{
    match rating {
        Some(v) => Some(if v < 0 { 0 } else if v > MAX_RATING as i64 { MAX_RATING } else { v as u8 }),
        None => None,
    }
}

impl View for Database {
    type V = DatabaseView;

    closed spec fn view(&self) -> DatabaseView {
        DatabaseView {
            locations: views(self.locations@).to_set(),
            settings: settings_map(self.settings@),
            books: views(self.books@),
            tracks: views(self.tracks@),
            bookmarks: views(self.bookmarks@),
            history: views(self.history@),
        }
    }
}

impl Database {
    /// How the rows of locations and settings are kept.
    pub closed spec fn arranged(&self) -> bool {
        &&& locations_ordered(self.locations@)
        &&& settings_differ(self.settings@)
    }

    /// What holds of a database at all times.
    pub open spec fn wf(&self) -> bool {
        self@.valid() && self.arranged()
    }

    /// What was written since the changes were last taken.
    pub closed spec fn changes(&self) -> Seq<ChangeView> {
        views(self.changes@)
    }

    /// Whether everything that was written since `before` has been added to what
    /// was written.
    pub open spec fn records(self, before: Database) -> bool {
        recorded(before@, before.changes(), self@, self.changes())
    }

    /// Open an empty database that is kept in memory.
    pub fn open_in_memory() -> (r: Result<Database, DbError>)
        ensures
            r is Ok,
            r->Ok_0.wf(),
            r->Ok_0@ == DatabaseView::empty(),
            r->Ok_0.changes() == Seq::<ChangeView>::empty(),
    {
        let db = Database {
            locations: Vec::new(),
            settings: Vec::new(),
            books: Vec::new(),
            tracks: Vec::new(),
            bookmarks: Vec::new(),
            history: Vec::new(),
            changes: Vec::new(),
        };
        assert(db@ =~= DatabaseView::empty());
        assert(db.changes() =~= Seq::<ChangeView>::empty());
        Ok(db)
    }

    /// The database that holds these rows, with locations in the order of their
    /// code points and the other rows in the order of their ids.
    pub fn restore(
        locations: Vec<String>,
        settings: Vec<Setting>,
        books: Vec<BookRow>,
        tracks: Vec<TrackRow>,
        bookmarks: Vec<Bookmark>,
        history: Vec<HistoryEntry>,
    ) -> (r: Result<Database, DbError>)
        ensures
            r is Ok <==> locations_ordered(locations@) && settings_differ(settings@) && stored(
                locations@,
                settings@,
                books@,
                tracks@,
                bookmarks@,
                history@,
            ).valid(),
            match r {
                Ok(db) => db.wf() && db@ == stored(locations@, settings@, books@, tracks@, bookmarks@, history@)
                    && db.changes() == Seq::<ChangeView>::empty(),
                Err(e) => e == DbError::Inconsistent,
            },
    {
        if !locations_fit(&locations) || !settings_fit(&settings) || !books_fit(&books) || !tracks_fit(&tracks, &books)
            || !bookmarks_fit(&bookmarks, &books) || !history_fits(&history) {
            return Err(DbError::Inconsistent);
        }
        let db = Database { locations, settings, books, tracks, bookmarks, history, changes: Vec::new() };
        assert(db.changes() =~= Seq::<ChangeView>::empty());
        Ok(db)
    }

    /// Take the places of what was written since this was last called.
    pub fn take_changes(&mut self) -> (r: Vec<Change>)
        ensures
            views(r@) == old(self).changes(),
            final(self).changes() == Seq::<ChangeView>::empty(),
            final(self)@ == old(self)@,
            old(self).wf() ==> final(self).wf(),
    {
        let mut taken: Vec<Change> = Vec::new();
        std::mem::swap(&mut taken, &mut self.changes);
        assert(self.changes() =~= Seq::<ChangeView>::empty());
        taken
    }

    // ---- finding rows ------------------------------------------------------

    fn find_book(&self, id: i64) -> (r: Option<usize>)
        requires
            self.wf(),
        ensures
            match r {
                Some(i) => i < self.books.len() && self@.books[i as int].book.id == id && has_book(self@.books, id)
                    && place_of_book(self@.books, id) == i,
                None => !has_book(self@.books, id),
            },
    {
        let mut i: usize = 0;
        while i < self.books.len()
            invariant
                self.wf(),
                i <= self.books.len(),
                forall|k: int| 0 <= k < i ==> (#[trigger] self@.books[k]).book.id != id,
            decreases self.books.len() - i,
        {
            assert(self@.books[i as int] == self.books@[i as int]@);
            if self.books[i].book.id == id {
                proof {
                    one_book_per_id(self@.books, i as int, place_of_book(self@.books, id));
                }
                return Some(i);
            }
            i = i + 1;
        }
        None
    }

    fn find_path(&self, path: &str) -> (r: Option<usize>)
        requires
            self.wf(),
        ensures
            match r {
                Some(i) => i < self.books.len() && self@.books[i as int].book.path == path@ && has_path(
                    self@.books,
                    path@,
                ) && place_of_path(self@.books, path@) == i,
                None => !has_path(self@.books, path@),
            },
    {
        let mut i: usize = 0;
        while i < self.books.len()
            invariant
                self.wf(),
                i <= self.books.len(),
                forall|k: int| 0 <= k < i ==> (#[trigger] self@.books[k]).book.path != path@,
            decreases self.books.len() - i,
        {
            assert(self@.books[i as int] == self.books@[i as int]@);
            if text::same(self.books[i].book.path.as_str(), path) {
                proof {
                    one_book_per_path(self@.books, i as int, place_of_path(self@.books, path@));
                }
                return Some(i);
            }
            i = i + 1;
        }
        None
    }

    fn find_key(&self, key: &str) -> (r: Option<usize>)
        requires
            self.wf(),
        ensures
            match r {
                Some(i) => i < self.history.len() && self@.history[i as int].is_of(key@) && has_key(
                    self@.history,
                    key@,
                ) && place_of_key(self@.history, key@) == i,
                None => !has_key(self@.history, key@),
            },
    {
        let mut i: usize = 0;
        while i < self.history.len()
            invariant
                self.wf(),
                i <= self.history.len(),
                forall|k: int| 0 <= k < i ==> !(#[trigger] self@.history[k]).is_of(key@),
            decreases self.history.len() - i,
        {
            assert(self@.history[i as int] == self.history@[i as int]@);
            if self.history[i].keyed && text::same(self.history[i].book_key.as_str(), key) {
                proof {
                    one_first_place(self@.history, key@, i as int);
                }
                return Some(i);
            }
            i = i + 1;
        }
        None
    }

    // ---- storage locations -------------------------------------------------

    /// Where a location stands or would stand, and whether it is there.
    fn find_location(&self, path: &str) -> (r: (usize, bool))
        requires
            self.wf(),
        ensures
            r.0 <= self.locations.len(),
            r.1 == self@.locations.contains(path@),
            r.1 ==> r.0 < self.locations.len() && self.locations[r.0 as int]@ == path@,
            forall|k: int| 0 <= k < r.0 ==> text_before((#[trigger] self.locations[k])@, path@),
            !r.1 ==> forall|k: int| r.0 <= k < self.locations.len() ==> text_before(path@, (#[trigger] self.locations[k])@),
    {
        let mut i: usize = 0;
        while i < self.locations.len() && text_first(self.locations[i].as_str(), path)
            invariant
                i <= self.locations.len(),
                forall|k: int| 0 <= k < i ==> text_before((#[trigger] self.locations[k])@, path@),
            decreases self.locations.len() - i,
        {
            i = i + 1;
        }
        let found = i < self.locations.len() && text::same(self.locations[i].as_str(), path);
        proof {
            let v = views(self.locations@);
            if found {
                assert(v[i as int] == path@);
                assert(v.contains(path@));
            } else {
                assert forall|k: int| i <= k < self.locations.len() implies text_before(path@, (#[trigger] self.locations[k])@) by {
                    text_order(self.locations[i as int]@, path@);
                    if k > i {
                        assert(text_before(self.locations[i as int]@, self.locations[k]@));
                        order::lex_transitive(codes(path@), codes(self.locations[i as int]@), codes(self.locations[k]@));
                    }
                }
                if v.contains(path@) {
                    let k = choose|k: int| 0 <= k < v.len() && v[k] == path@;
                    assert(self.locations[k]@ == path@);
                    text_order(path@, path@);
                    assert(false);
                }
            }
        }
        (i, found)
    }

    /// Remember a folder to scan for books.
    pub fn add_storage_location(&mut self, path: &str) -> (r: Result<(), DbError>)
        requires
            old(self).wf(),
        ensures
            r is Ok,
            final(self).wf(),
            final(self).records(*old(self)),
            final(self)@ == (DatabaseView { locations: old(self)@.locations.insert(path@), ..old(self)@ }),
            final(self).changes() == old(self).changes().push(ChangeView::Location(path@)),
    {
        let (at, found) = self.find_location(path);
        if !found {
            let ghost before = self.locations@;
            self.locations.insert(at, path.to_owned());
            proof {
                let after = self.locations@;
                let v = views(before);
                let w = views(after);
                assert forall|i: int, j: int| 0 <= i < j < after.len() implies text_before(
                    (#[trigger] after[i])@,
                    (#[trigger] after[j])@,
                ) by {
                    let i0 = if i < at { i } else { i - 1 };
                    let j0 = if j < at { j } else { j - 1 };
                    if i != at && j != at {
                        assert(after[i] == before[i0] && after[j] == before[j0]);
                    } else if j == at {
                        assert(after[i] == before[i0]);
                    } else {
                        assert(after[j] == before[j0]);
                    }
                }
                assert(w =~= v.insert(at as int, path@));
                assert forall|x: Seq<char>| w.contains(x) == (x == path@ || v.contains(x)) by {
                    if v.contains(x) {
                        let k = choose|k: int| 0 <= k < v.len() && v[k] == x;
                        if k < at {
                            assert(w[k] == x);
                        } else {
                            assert(w[k + 1] == x);
                        }
                    }
                    assert(w[at as int] == path@);
                    if w.contains(x) && x != path@ {
                        let k = choose|k: int| 0 <= k < w.len() && w[k] == x;
                        if k < at {
                            assert(v[k] == x);
                        } else {
                            assert(v[k - 1] == x);
                        }
                    }
                }
                assert(w.to_set() =~= v.to_set().insert(path@));
            }
        } else {
            assert(self@.locations.insert(path@) =~= self@.locations);
        }
        self.changes.push(Change::Location(path.to_owned()));
        assert(self.changes() =~= old(self).changes().push(ChangeView::Location(path@)));
        assert(self@ =~= (DatabaseView { locations: old(self)@.locations.insert(path@), ..old(self)@ }));
        proof {
            location_is_told(old(self)@, old(self)@.locations.insert(path@), path@);
            told_one(old(self)@, old(self).changes(), self@, ChangeView::Location(path@));
        }
        Ok(())
    }

    /// Forget a folder to scan for books.
    pub fn remove_storage_location(&mut self, path: &str) -> (r: Result<(), DbError>)
        requires
            old(self).wf(),
        ensures
            r is Ok,
            final(self).wf(),
            final(self).records(*old(self)),
            final(self)@ == (DatabaseView { locations: old(self)@.locations.remove(path@), ..old(self)@ }),
            final(self).changes() == old(self).changes().push(ChangeView::Location(path@)),
    {
        let (at, found) = self.find_location(path);
        if found {
            let ghost before = self.locations@;
            self.locations.remove(at);
            proof {
                let after = self.locations@;
                let v = views(before);
                let w = views(after);
                assert forall|i: int, j: int| 0 <= i < j < after.len() implies text_before(
                    (#[trigger] after[i])@,
                    (#[trigger] after[j])@,
                ) by {
                    let i0 = if i < at { i } else { i + 1 };
                    let j0 = if j < at { j } else { j + 1 };
                    assert(after[i] == before[i0] && after[j] == before[j0]);
                }
                assert forall|x: Seq<char>| w.contains(x) == (x != path@ && v.contains(x)) by {
                    if v.contains(x) && x != path@ {
                        let k = choose|k: int| 0 <= k < v.len() && v[k] == x;
                        if k < at {
                            assert(w[k] == x);
                        } else {
                            assert(w[k - 1] == x);
                        }
                    }
                    if w.contains(x) {
                        let k = choose|k: int| 0 <= k < w.len() && w[k] == x;
                        let k0 = if k < at { k } else { k + 1 };
                        assert(v[k0] == x);
                        text_order(before[k0]@, path@);
                        if k < at {
                            assert(text_before(before[k0]@, before[at as int]@));
                        } else {
                            assert(text_before(before[at as int]@, before[k0]@));
                        }
                    }
                }
                assert(w.to_set() =~= v.to_set().remove(path@));
            }
        } else {
            assert(self@.locations.remove(path@) =~= self@.locations);
        }
        self.changes.push(Change::Location(path.to_owned()));
        assert(self.changes() =~= old(self).changes().push(ChangeView::Location(path@)));
        assert(self@ =~= (DatabaseView { locations: old(self)@.locations.remove(path@), ..old(self)@ }));
        proof {
            location_is_told(old(self)@, old(self)@.locations.remove(path@), path@);
            told_one(old(self)@, old(self).changes(), self@, ChangeView::Location(path@));
        }
        Ok(())
    }

    /// The folders to scan for books, in the order of their code points.
    pub fn storage_locations(&self) -> (r: Result<Vec<String>, DbError>)
        requires
            self.wf(),
        ensures
            r is Ok,
            views(r->Ok_0@).to_set() == self@.locations,
            forall|i: int, j: int|
                0 <= i < j < r->Ok_0.len() ==> text_before((#[trigger] r->Ok_0[i])@, (#[trigger] r->Ok_0[j])@),
    {
        let mut out: Vec<String> = Vec::new();
        let mut i: usize = 0;
        while i < self.locations.len()
            invariant
                i <= self.locations.len(),
                out@ =~= self.locations@.take(i as int),
            decreases self.locations.len() - i,
        {
            out.push(self.locations[i].clone());
            i = i + 1;
        }
        assert(out@ =~= self.locations@);
        Ok(out)
    }

    // ---- settings (key/value) ----------------------------------------------

    fn find_setting(&self, key: &str) -> (r: Option<usize>)
        ensures
            match r {
                Some(i) => i < self.settings.len() && self.settings@[i as int].key@ == key@ && has_setting(
                    self.settings@,
                    key@,
                ),
                None => !has_setting(self.settings@, key@),
            },
    {
        let mut i: usize = 0;
        while i < self.settings.len()
            invariant
                i <= self.settings.len(),
                forall|k: int| 0 <= k < i ==> (#[trigger] self.settings@[k]).key@ != key@,
            decreases self.settings.len() - i,
        {
            if text::same(self.settings[i].key.as_str(), key) {
                return Some(i);
            }
            i = i + 1;
        }
        None
    }

    /// The value of a setting, if it was ever set.
    pub fn get_setting(&self, key: &str) -> (r: Option<String>)
        requires
            self.wf(),
        ensures
            match r {
                Some(v) => self@.settings.dom().contains(key@) && v@ == self@.settings[key@],
                None => !self@.settings.dom().contains(key@),
            },
    {
        match self.find_setting(key) {
            Some(i) => {
                proof {
                    self.setting_found(i as int, key@);
                }
                Some(self.settings[i].value.clone())
            },
            None => None,
        }
    }

    proof fn setting_found(&self, i: int, key: Seq<char>)
        requires
            self.wf(),
            0 <= i < self.settings.len(),
            self.settings@[i].key@ == key,
        ensures
            self@.settings.dom().contains(key),
            self@.settings[key] == self.settings@[i].value@,
    {
        let s = self.settings@;
        assert(has_setting(s, key));
        let k = setting_place(s, key);
        if k < i {
            assert(self.settings[k].key@ != self.settings[i].key@);
        } else if i < k {
            assert(self.settings[i].key@ != self.settings[k].key@);
        }
    }

    /// Set a setting.
    pub fn set_setting(&mut self, key: &str, value: &str)
        requires
            old(self).wf(),
        ensures
            final(self).wf(),
            final(self).records(*old(self)),
            final(self)@ == (DatabaseView { settings: old(self)@.settings.insert(key@, value@), ..old(self)@ }),
            final(self).changes() == old(self).changes().push(ChangeView::Setting(key@)),
    {
        let ghost before = self.settings@;
        match self.find_setting(key) {
            Some(i) => {
                self.settings.set(i, Setting { key: key.to_owned(), value: value.to_owned() });
                assert(self.settings@ =~= before.update(i as int, self.settings@[i as int]));
                proof {
                    settings_after(before, self.settings@, i as int, key@, value@);
                }
            },
            None => {
                self.settings.push(Setting { key: key.to_owned(), value: value.to_owned() });
                proof {
                    settings_after(before, self.settings@, before.len() as int, key@, value@);
                }
            },
        }
        self.changes.push(Change::Setting(key.to_owned()));
        assert(self.changes() =~= old(self).changes().push(ChangeView::Setting(key@)));
        assert(self@ =~= (DatabaseView { settings: old(self)@.settings.insert(key@, value@), ..old(self)@ }));
        proof {
            setting_is_told(old(self)@, key@, value@);
            told_one(old(self)@, old(self).changes(), self@, ChangeView::Setting(key@));
        }
    }

    // ---- books -------------------------------------------------------------

    /// Whether there is a book at this path.
    pub fn book_path_exists(&self, path: &str) -> (r: Result<bool, DbError>)
        requires
            self.wf(),
        ensures
            r == Ok::<bool, DbError>(has_path(self@.books, path@)),
    {
        match self.find_path(path) {
            Some(_) => Ok(true),
            None => Ok(false),
        }
    }

    /// Put a book in or refresh it, and tell its id.
    fn put_book(&mut self, path: &str, meta: &BookMeta, chapter_count: usize, multi: bool, now: i64) -> (r: Option<i64>)
        requires
            old(self).wf(),
        ensures
            final(self).wf(),
            final(self).records(*old(self)),
            match r {
                Some(id) => {
                    &&& old(self)@.can_put_book(path@)
                    &&& id == old(self)@.id_for_path(path@)
                    &&& final(self)@ == old(self)@.put_book(path@, meta@, chapter_count, multi, now)
                    &&& final(self).changes() == old(self).changes().push(ChangeView::Book(id))
                },
                None => {
                    &&& !old(self)@.can_put_book(path@)
                    &&& final(self)@ == old(self)@
                    &&& final(self).changes() == old(self).changes()
                },
            },
    {
        let ghost before = self@;
        let ghost told = self.changes();
        let id: i64;
        match self.find_path(path) {
            Some(i) => {
                id = self.books[i].book.id;
                let ghost row = self.books@[i as int]@;
                assert(row == before.books[i as int]);
                let fresh = BookRow {
                    book: Book {
                        id,
                        path: self.books[i].book.path.clone(),
                        title: meta.display_title().to_owned(),
                        author: copy_text(&meta.author),
                        reader: copy_text(&meta.reader),
                        duration: meta.length(),
                        chapter_count,
                        cover: copy_cover(&meta.cover),
                        position: self.books[i].book.position,
                        finished: self.books[i].book.finished,
                        speed_bits: self.books[i].book.speed_bits,
                        is_multi: self.books[i].book.is_multi || multi,
                        added_at: self.books[i].book.added_at,
                        last_played: self.books[i].book.last_played,
                    },
                    album: copy_text(&meta.album),
                };
                assert(fresh@ =~= refreshed_book(row, meta@, chapter_count, multi));
                self.books.set(i, fresh);
                assert(views(self.books@) =~= before.books.update(i as int, fresh@));
            },
            None => {
                let n = self.books.len();
                if n == 0 {
                    id = 1;
                } else {
                    assert(before.books.last() == self.books@[n - 1]@);
                    let last: i64 = self.books[n - 1].book.id;
                    if last == i64::MAX {
                        proof {
                            unwritten_records_nothing(*self);
                        }
                        return None;
                    }
                    id = last + 1;
                }
                let fresh = BookRow {
                    book: Book {
                        id,
                        path: path.to_owned(),
                        title: meta.display_title().to_owned(),
                        author: copy_text(&meta.author),
                        reader: copy_text(&meta.reader),
                        duration: meta.length(),
                        chapter_count,
                        cover: copy_cover(&meta.cover),
                        position: Duration::zero(),
                        finished: false,
                        speed_bits: NORMAL_SPEED_BITS,
                        is_multi: multi,
                        added_at: now,
                        last_played: None,
                    },
                    album: copy_text(&meta.album),
                };
                assert(before.id_for_path(path@) == id);
                assert(fresh@ =~= new_book(id, path@, meta@, chapter_count, multi, now));
                self.books.push(fresh);
                assert(views(self.books@) =~= before.books.push(fresh@));
            },
        }
        self.changes.push(Change::Book(id));
        proof {
            put_book_keeps_valid(before, path@, meta@, chapter_count, multi, now);
            assert(self.changes() =~= told.push(ChangeView::Book(id)));
            assert(self@ =~= before.put_book(path@, meta@, chapter_count, multi, now));
            put_book_is_told(before, path@, meta@, chapter_count, multi, now);
            told_one(before, told, self@, ChangeView::Book(id));
        }
        Some(id)
    }

    /// Insert or refresh a book by path, at a given time. Metadata is
    /// overwritten; resume state (`position`, `finished`, `added_at`) is
    /// preserved across re-imports.
    pub fn upsert_book_at(&mut self, path: &str, meta: &BookMeta, now: i64) -> (r: Result<i64, DbError>)
        requires
            old(self).wf(),
        ensures
            final(self).wf(),
            final(self).records(*old(self)),
            book_put(old(self)@, path@, meta@, now, final(self)@, r),
            final(self).changes() == match r {
                Ok(id) => old(self).changes().push(ChangeView::Book(id)),
                Err(_) => old(self).changes(),
            },
    {
        match self.put_book(path, meta, meta.chapters.len(), false, now) {
            Some(id) => Ok(id),
            None => Err(DbError::Full),
        }
    }

    /// Insert or refresh a book by path, now. Metadata is overwritten; resume
    /// state (`position`, `finished`, `added_at`) is preserved across
    /// re-imports.
    pub fn upsert_book(&mut self, path: &str, meta: &BookMeta) -> (r: Result<i64, DbError>)
        requires
            old(self).wf(),
        ensures
            final(self).wf(),
            final(self).records(*old(self)),
            exists|now: i64| book_put(old(self)@, path@, meta@, now, final(self)@, r),
            final(self).changes() == match r {
                Ok(id) => old(self).changes().push(ChangeView::Book(id)),
                Err(_) => old(self).changes(),
            },
    {
        let now = now_unix();
        self.upsert_book_at(path, meta, now)
    }

    /// Whether the tracks before place `n` all have another number than the one
    /// there.
    fn number_is_new(tracks: &Vec<Track>, n: usize) -> (r: bool)
        requires
            n < tracks.len(),
        ensures
            r == (forall|j: int| 0 <= j < n ==> (#[trigger] tracks@[j]).idx != tracks@[n as int].idx),
    {
        let mut j: usize = 0;
        while j < n
            invariant
                j <= n,
                n < tracks.len(),
                forall|k: int| 0 <= k < j ==> (#[trigger] tracks@[k]).idx != tracks@[n as int].idx,
            decreases n - j,
        {
            if tracks[j].idx == tracks[n].idx {
                return false;
            }
            j = j + 1;
        }
        true
    }

    /// Put the tracks of a book in, up to the first whose number is taken, and
    /// tell how many that are.
    fn put_tracks(&mut self, id: i64, tracks: &Vec<Track>) -> (n: usize)
        ensures
            n == distinct_tracks(views(tracks@)),
            final(self)@ == old(self)@.put_tracks(id, views(tracks@).take(n as int)),
            final(self).arranged() == old(self).arranged(),
            final(self).changes() == old(self).changes().push(ChangeView::Tracks(id)),
            final(self).records(*old(self)),
    {
        let ghost before = self@;
        let ghost told = self.changes();
        let ghost all = views(tracks@);
        let elsewhere = |t: &TrackRow| -> (r: bool)
            ensures
                r == (t@.book_id != id),
        {
            t.book_id != id
        };
        keep(&mut self.tracks, elsewhere, Ghost(|t: TrackRowView| t.book_id != id));
        let ghost kept = views(self.tracks@);
        let mut n: usize = 0;
        proof {
            assert(all.take(0) =~= Seq::empty());
            assert(tracks.len() == 0 ==> all.take(0) =~= all);
            assert(kept + track_rows(id, all.take(0)) =~= kept);
        }
        while n < tracks.len()
            invariant_except_break
                n == distinct_tracks(all.take(n as int)),
                n == tracks.len() ==> all.take(n as int) == all,
            invariant
                n <= tracks.len(),
                all == views(tracks@),
                views(self.tracks@) == kept + track_rows(id, all.take(n as int)),
                self.locations == old(self).locations,
                self.settings == old(self).settings,
                self.books == old(self).books,
                self.bookmarks == old(self).bookmarks,
                self.history == old(self).history,
                self.changes == old(self).changes,
            ensures
                n == distinct_tracks(all),
            decreases tracks.len() - n,
        {
            let ghost now = all.take(n + 1);
            assert(now.drop_last() =~= all.take(n as int));
            let new = Self::number_is_new(tracks, n);
            proof {
                assert(now.last() == tracks@[n as int]@);
                assert(forall|j: int| 0 <= j < n ==> #[trigger] now[j] == tracks@[j]@);
                if new {
                    assert forall|j: int| 0 <= j < n implies (#[trigger] now[j]).idx != now.last().idx by {
                        assert(tracks@[j].idx != tracks@[n as int].idx);
                    }
                } else {
                    let j = choose|j: int| 0 <= j < n && (#[trigger] tracks@[j]).idx == tracks@[n as int].idx;
                    assert(now[j].idx == now.last().idx);
                    assert(distinct_tracks(now) == n);
                    distinct_stays(all, n + 1);
                    assert(all.take(all.len() as int) =~= all);
                }
            }
            if !new {
                break;
            }
            let ghost rows = views(self.tracks@);
            let row = TrackRow { book_id: id, track: tracks[n].clone() };
            self.tracks.push(row);
            proof {
                assert(views(self.tracks@) =~= rows.push(row@));
                assert(track_rows(id, now) =~= track_rows(id, all.take(n as int)).push(row@));
                assert(views(self.tracks@) =~= kept + track_rows(id, now));
            }
            n = n + 1;
            if n == tracks.len() {
                assert(all.take(n as int) =~= all);
            }
        }
        self.changes.push(Change::Tracks(id));
        assert(self.changes() =~= told.push(ChangeView::Tracks(id)));
        assert(self@ =~= before.put_tracks(id, all.take(n as int)));
        proof {
            put_tracks_is_told(before, id, all.take(n as int));
            told_one(before, told, self@, ChangeView::Tracks(id));
        }
        n
    }

    /// Insert or refresh a multi-file book (a folder played as one book),
    /// replacing its track list, at a given time. Resume state is preserved
    /// across re-imports.
    pub fn upsert_multi_book_at(&mut self, folder: &str, meta: &BookMeta, tracks: &Vec<Track>, now: i64) -> (r: Result<i64, DbError>)
        requires
            old(self).wf(),
        ensures
            final(self).wf(),
            final(self).records(*old(self)),
            multi_book_put(old(self)@, folder@, meta@, views(tracks@), now, final(self)@, r),
            final(self).changes() == if old(self)@.can_put_book(folder@) {
                let id = old(self)@.id_for_path(folder@);
                old(self).changes().push(ChangeView::Book(id)).push(ChangeView::Tracks(id))
            } else {
                old(self).changes()
            },
    {
        broadcast use records_carry_over;

        let ghost before = self@;
        match self.put_book(folder, meta, tracks.len(), true, now) {
            Some(id) => {
                let n = self.put_tracks(id, tracks);
                proof {
                    put_multi_book_keeps_valid(before, folder@, meta@, views(tracks@), now);
                    assert(views(tracks@).len() as usize == tracks.len());
                }
                if n == tracks.len() {
                    Ok(id)
                } else {
                    Err(DbError::RepeatedTrack)
                }
            },
            None => Err(DbError::Full),
        }
    }

    /// Insert or refresh a multi-file book (a folder played as one book),
    /// replacing its track list, now. Resume state is preserved across
    /// re-imports.
    pub fn upsert_multi_book(&mut self, folder: &str, meta: &BookMeta, tracks: &Vec<Track>) -> (r: Result<i64, DbError>)
        requires
            old(self).wf(),
        ensures
            final(self).wf(),
            final(self).records(*old(self)),
            exists|now: i64| multi_book_put(old(self)@, folder@, meta@, views(tracks@), now, final(self)@, r),
            final(self).changes() == if old(self)@.can_put_book(folder@) {
                let id = old(self)@.id_for_path(folder@);
                old(self).changes().push(ChangeView::Book(id)).push(ChangeView::Tracks(id))
            } else {
                old(self).changes()
            },
    {
        let now = now_unix();
        self.upsert_multi_book_at(folder, meta, tracks, now)
    }

    /// Ordered member tracks of a multi-file book.
    pub fn tracks(&self, book_id: i64) -> (r: Result<Vec<Track>, DbError>)
        requires
            self.wf(),
        ensures
            r is Ok,
            views(r->Ok_0@) == listing(self@.tracks_in(book_id), |t: TrackView| track_key(t)),
            is_listing(self@.tracks_in(book_id), |t: TrackView| track_key(t), views(r->Ok_0@)),
    {
        let mut rows: Vec<Track> = Vec::new();
        let mut keys: Vec<Key> = Vec::new();
        let mut i: usize = 0;
        let ghost all = self@.tracks;
        let ghost p = |t: TrackRowView| t.book_id == book_id;
        let ghost f = |t: TrackRowView| t.track;
        proof {
            reveal(Seq::filter);
            assert(views(rows@) =~= all.take(0).filter(p).map_values(f));
        }
        while i < self.tracks.len()
            invariant
                i <= self.tracks.len(),
                all == views(self.tracks@),
                p == (|t: TrackRowView| t.book_id == book_id),
                f == (|t: TrackRowView| t.track),
                views(rows@) == all.take(i as int).filter(p).map_values(f),
                keys.len() == rows.len(),
                forall|k: int| 0 <= k < keys.len() ==> (#[trigger] keys@[k])@ == track_key(rows@[k]@),
            decreases self.tracks.len() - i,
        {
            proof {
                filter_step(all, i as int, p);
                assert(all[i as int] == self.tracks@[i as int]@);
            }
            if self.tracks[i].book_id == book_id {
                let row = self.tracks[i].track.clone();
                let key = Key { first: vec![row.idx as i128], second: Vec::new(), last: 0 };
                assert(key@ =~= track_key(row@));
                let ghost before = rows@;
                keys.push(key);
                rows.push(row);
                assert(views(rows@) =~= views(before).push(row@));
                assert(all.take(i + 1).filter(p).map_values(f) =~= all.take(i as int).filter(p).map_values(f).push(row@));
            }
            i = i + 1;
        }
        proof {
            assert(all.take(i as int) =~= all);
            assert(views(rows@) == self@.tracks_in(book_id));
            filter_from(all, p);
            filter_pairs(
                all,
                p,
                |a: TrackRowView, b: TrackRowView| a.book_id == b.book_id ==> a.track.idx != b.track.idx,
            );
            let v = all.filter(p);
            assert forall|i: int, j: int| 0 <= i < j < keys.len() implies (#[trigger] keys@[i])@ != (#[trigger] keys@[j])@ by {
                assert(views(rows@)[i] == v[i].track);
                assert(views(rows@)[j] == v[j].track);
                assert(p(v[i]) && p(v[j]));
                assert(v[i].track.idx != v[j].track.idx);
                assert(keys@[i]@.first[0] == v[i].track.idx);
                assert(keys@[j]@.first[0] == v[j].track.idx);
            }
        }
        let copy = |t: &Track| -> (r: Track)
            ensures
                r@ == t@,
        {
            t.clone()
        };
        Ok(listed(&rows, &keys, copy, Ghost(|t: TrackView| track_key(t))))
    }

    /// The book with this id, if there is one.
    pub fn get_book(&self, id: i64) -> (r: Result<Option<Book>, DbError>)
        requires
            self.wf(),
        ensures
            r is Ok,
            view_of(r->Ok_0) == self@.book(id),
    {
        match self.find_book(id) {
            Some(i) => {
                assert(self@.books[i as int] == self.books@[i as int]@);
                Ok(Some(self.books[i].book.clone()))
            },
            None => Ok(None),
        }
    }

    /// The album that the files of a book name.
    pub fn album(&self, id: i64) -> (r: Option<String>)
        requires
            self.wf(),
        ensures
            text_of(r) == if has_book(self@.books, id) {
                self@.books[place_of_book(self@.books, id)].album
            } else {
                None
            },
    {
        match self.find_book(id) {
            Some(i) => {
                assert(self@.books[i as int] == self.books@[i as int]@);
                copy_text(&self.books[i].album)
            },
            None => None,
        }
    }

    /// All books, in the order that `sort` names.
    pub fn list_books(&self, sort: Sort) -> (r: Result<Vec<Book>, DbError>)
        requires
            self.wf(),
        ensures
            r is Ok,
            views(r->Ok_0@) == listing(self@.book_views(), |b: BookView| book_key(sort, b)),
            is_listing(self@.book_views(), |b: BookView| book_key(sort, b), views(r->Ok_0@)),
            r->Ok_0.len() == self@.books.len(),
    {
        let mut rows: Vec<Book> = Vec::new();
        let mut keys: Vec<Key> = Vec::new();
        let mut i: usize = 0;
        while i < self.books.len()
            invariant
                i <= self.books.len(),
                rows.len() == i,
                keys.len() == i,
                forall|k: int| 0 <= k < i ==> (#[trigger] rows@[k])@ == self.books@[k]@.book,
                forall|k: int| 0 <= k < i ==> (#[trigger] keys@[k])@ == book_key(sort, self.books@[k]@.book),
            decreases self.books.len() - i,
        {
            keys.push(sort_key(sort, &self.books[i].book));
            rows.push(self.books[i].book.clone());
            i = i + 1;
        }
        proof {
            assert(views(rows@) =~= self@.book_views());
            assert forall|i: int, j: int| 0 <= i < j < keys.len() implies (#[trigger] keys@[i])@ != (#[trigger] keys@[j])@ by {
                assert(self@.books[i] == self.books@[i]@ && self@.books[j] == self.books@[j]@);
                assert(self@.books[i].book.id < self@.books[j].book.id);
                assert(keys@[i]@.last == self@.books[i].book.id);
                assert(keys@[j]@.last == self@.books[j].book.id);
            }
            assert forall|k: int| 0 <= k < keys.len() implies (#[trigger] keys@[k])@ == book_key(sort, rows@[k]@) by {
                assert(rows@[k]@ == self.books@[k]@.book);
            }
        }
        let copy = |b: &Book| -> (r: Book)
            ensures
                r@ == b@,
        {
            b.clone()
        };
        Ok(listed(&rows, &keys, copy, Ghost(|b: BookView| book_key(sort, b))))
    }

    /// Replace the book at place `i` by `book`, which has its id.
    fn replace_book(&mut self, i: usize, book: Book, Ghost(f): Ghost<spec_fn(BookView) -> BookView>)
        requires
            old(self).wf(),
            i < old(self)@.books.len(),
            book@ == f(old(self)@.books[i as int].book),
            forall|b: BookView| (#[trigger] f(b)).id == b.id && f(b).path == b.path,
        ensures
            final(self).wf(),
            final(self).records(*old(self)),
            final(self)@ == old(self)@.change_book(book.id, f),
            final(self).changes() == old(self).changes().push(ChangeView::Book(book.id)),
    {
        let ghost before = self@;
        let ghost told = self.changes();
        let id: i64 = book.id;
        assert(before.books[i as int] == self.books@[i as int]@);
        let row = BookRow { album: copy_text(&self.books[i].album), book };
        self.books.set(i, row);
        self.changes.push(Change::Book(id));
        proof {
            assert(views(self.books@) =~= before.books.update(i as int, row@));
            let after = before.change_book(id, f).books;
            assert forall|k: int| 0 <= k < after.len() implies after[k] == views(self.books@)[k] by {
                if before.books[k].book.id == id {
                    one_book_per_id(before.books, k, i as int);
                }
            }
            assert(views(self.books@) =~= after);
            change_book_keeps_valid(before, id, f);
            assert(self.changes() =~= told.push(ChangeView::Book(id)));
            assert(self@ =~= before.change_book(id, f));
            change_book_is_told(before, id, f);
            told_one(before, told, self@, ChangeView::Book(id));
        }
    }

    /// Remember where the listener is in a book, at a given time.
    pub fn update_position_at(&mut self, id: i64, position: Duration, finished: bool, now: i64) -> (r: Result<(), DbError>)
        requires
            old(self).wf(),
        ensures
            r is Ok,
            final(self).wf(),
            final(self).records(*old(self)),
            final(self)@ == old(self)@.change_book(id, moved_to(position@, finished, now)),
            final(self).changes() == if has_book(old(self)@.books, id) {
                old(self).changes().push(ChangeView::Book(id))
            } else {
                old(self).changes()
            },
    {
        match self.find_book(id) {
            Some(i) => {
                assert(self@.books[i as int] == self.books@[i as int]@);
                let mut book = self.books[i].book.clone();
                book.position = position;
                book.finished = finished;
                book.last_played = Some(now);
                self.replace_book(i, book, Ghost(moved_to(position@, finished, now)));
            },
            None => {
                assert(self@.change_book(id, moved_to(position@, finished, now)) =~= self@);
                proof {
                    unwritten_records_nothing(*self);
                }
            },
        }
        Ok(())
    }

    /// Remember where the listener is in a book, now.
    pub fn update_position(&mut self, id: i64, position: Duration, finished: bool) -> (r: Result<(), DbError>)
        requires
            old(self).wf(),
        ensures
            r is Ok,
            final(self).wf(),
            final(self).records(*old(self)),
            exists|now: i64| final(self)@ == old(self)@.change_book(id, #[trigger] moved_to(position@, finished, now)),
            final(self).changes() == if has_book(old(self)@.books, id) {
                old(self).changes().push(ChangeView::Book(id))
            } else {
                old(self).changes()
            },
    {
        let now = now_unix();
        self.update_position_at(id, position, finished, now)
    }

    /// Remember the speed at which a book is played, as the bits of a 32-bit
    /// float. One that is not a number is turned down.
    pub fn update_speed(&mut self, id: i64, speed_bits: u32) -> (r: Result<(), DbError>)
        requires
            old(self).wf(),
        ensures
            r == if has_book(old(self)@.books, id) && not_a_number(speed_bits) {
                Err::<(), DbError>(DbError::NotANumber)
            } else {
                Ok(())
            },
            final(self).wf(),
            final(self).records(*old(self)),
            final(self)@ == if r is Ok {
                old(self)@.change_book(id, played_at(speed_bits))
            } else {
                old(self)@
            },
            final(self).changes() == if r is Ok && has_book(old(self)@.books, id) {
                old(self).changes().push(ChangeView::Book(id))
            } else {
                old(self).changes()
            },
    {
        match self.find_book(id) {
            Some(i) => {
                assert(self@.books[i as int] == self.books@[i as int]@);
                if speed_bits % 0x8000_0000 > 0x7f80_0000 {
                    proof {
                        unwritten_records_nothing(*self);
                    }
                    return Err(DbError::NotANumber);
                }
                let mut book = self.books[i].book.clone();
                book.speed_bits = speed_bits;
                self.replace_book(i, book, Ghost(played_at(speed_bits)));
            },
            None => {
                assert(self@.change_book(id, played_at(speed_bits)) =~= self@);
                proof {
                    unwritten_records_nothing(*self);
                }
            },
        }
        Ok(())
    }

    /// Tell that a book is removed, with its tracks and bookmarks.
    fn tell_removal(&mut self, id: i64)
        ensures
            final(self)@ == old(self)@,
            final(self).arranged() == old(self).arranged(),
            final(self).changes() == old(self).changes() + removal_of(old(self)@, id),
    {
        let ghost told = self.changes();
        let ghost all = self@.bookmarks;
        let ghost p = |b: BookmarkView| b.book_id == id;
        let ghost f = |b: BookmarkView| ChangeView::Bookmark(b.id);
        let ghost first = seq![ChangeView::Book(id), ChangeView::Tracks(id)];
        self.changes.push(Change::Book(id));
        self.changes.push(Change::Tracks(id));
        let mut i: usize = 0;
        proof {
            reveal(Seq::filter);
            assert(all.take(0).filter(p).map_values(f) =~= Seq::empty());
            assert(self.changes() =~= told + (first + all.take(0).filter(p).map_values(f)));
        }
        while i < self.bookmarks.len()
            invariant
                i <= self.bookmarks.len(),
                all == views(self.bookmarks@),
                p == (|b: BookmarkView| b.book_id == id),
                f == (|b: BookmarkView| ChangeView::Bookmark(b.id)),
                self.changes() == told + (first + all.take(i as int).filter(p).map_values(f)),
                self.locations == old(self).locations,
                self.settings == old(self).settings,
                self.books == old(self).books,
                self.tracks == old(self).tracks,
                self.bookmarks == old(self).bookmarks,
                self.history == old(self).history,
            decreases self.bookmarks.len() - i,
        {
            proof {
                filter_step(all, i as int, p);
                assert(all[i as int] == self.bookmarks@[i as int]@);
            }
            if self.bookmarks[i].book_id == id {
                let ghost before = self.changes();
                let mark: i64 = self.bookmarks[i].id;
                self.changes.push(Change::Bookmark(mark));
                proof {
                    let few = all.take(i as int).filter(p);
                    assert(few.push(all[i as int]).map_values(f) =~= few.map_values(f).push(ChangeView::Bookmark(mark)));
                    assert(self.changes() =~= before.push(ChangeView::Bookmark(mark)));
                    assert(self.changes() =~= told + (first + all.take(i + 1).filter(p).map_values(f)));
                }
            }
            i = i + 1;
        }
        assert(all.take(i as int) =~= all);
    }

    /// Remove a book, with its tracks and bookmarks.
    pub fn remove_book(&mut self, id: i64) -> (r: Result<(), DbError>)
        requires
            old(self).wf(),
        ensures
            r is Ok,
            final(self).wf(),
            final(self).records(*old(self)),
            final(self)@ == old(self)@.without_book(id),
            final(self).changes() == old(self).changes() + removal_of(old(self)@, id),
    {
        let ghost before = self@;
        let ghost told = self.changes();
        self.tell_removal(id);
        let other_book = |r: &BookRow| -> (b: bool)
            ensures
                b == (r@.book.id != id),
        {
            r.book.id != id
        };
        let other_track = |t: &TrackRow| -> (b: bool)
            ensures
                b == (t@.book_id != id),
        {
            t.book_id != id
        };
        let other_mark = |m: &Bookmark| -> (b: bool)
            ensures
                b == (m@.book_id != id),
        {
            m.book_id != id
        };
        keep(&mut self.books, other_book, Ghost(|r: BookRowView| r.book.id != id));
        keep(&mut self.tracks, other_track, Ghost(|t: TrackRowView| t.book_id != id));
        keep(&mut self.bookmarks, other_mark, Ghost(|b: BookmarkView| b.book_id != id));
        proof {
            without_book_keeps_valid(before, id);
            assert(self@ =~= before.without_book(id));
            removal_is_told(before, id);
            told_more(before, told, self@, removal_of(before, id));
        }
        Ok(())
    }

    /// Remove a single-file book by its exact file path (used to clean up
    /// per-file entries once a folder is recognised as one multi-file book).
    pub fn remove_single_file_book(&mut self, path: &str) -> (r: Result<(), DbError>)
        requires
            old(self).wf(),
        ensures
            r is Ok,
            final(self).wf(),
            final(self).records(*old(self)),
            final(self)@ == old(self)@.without_single(path@),
            final(self).changes() == if has_path(old(self)@.books, path@) && !old(self)@.books[place_of_path(
                old(self)@.books,
                path@,
            )].book.is_multi {
                old(self).changes() + removal_of(
                    old(self)@,
                    old(self)@.books[place_of_path(old(self)@.books, path@)].book.id,
                )
            } else {
                old(self).changes()
            },
    {
        match self.find_path(path) {
            Some(i) => {
                assert(self@.books[i as int] == self.books@[i as int]@);
                if !self.books[i].book.is_multi {
                    let id: i64 = self.books[i].book.id;
                    return self.remove_book(id);
                }
            },
            None => {},
        }
        proof {
            unwritten_records_nothing(*self);
        }
        Ok(())
    }

    // ---- bookmarks ---------------------------------------------------------

    /// Set a bookmark in a book.
    pub fn add_bookmark(&mut self, book_id: i64, position: Duration, label: &str) -> (r: Result<(), DbError>)
        requires
            old(self).wf(),
        ensures
            final(self).wf(),
            final(self).records(*old(self)),
            r == if !has_book(old(self)@.books, book_id) {
                Err::<(), DbError>(DbError::NoSuchBook)
            } else if !old(self)@.can_bookmark(book_id) {
                Err::<(), DbError>(DbError::Full)
            } else {
                Ok::<(), DbError>(())
            },
            r is Ok ==> final(self)@ == old(self)@.put_bookmark(book_id, position@, label@),
            r is Ok ==> final(self).changes() == old(self).changes().push(
                ChangeView::Bookmark(next_bookmark_id(old(self)@.bookmarks) as i64),
            ),
            r is Err ==> final(self)@ == old(self)@ && final(self).changes() == old(self).changes(),
    {
        broadcast use unwritten_records_nothing;

        let ghost before = self@;
        let ghost told = self.changes();
        match self.find_book(book_id) {
            Some(_) => {},
            None => {
                return Err(DbError::NoSuchBook);
            },
        }
        let n: usize = self.bookmarks.len();
        let mut id: i64 = 1;
        if n > 0 {
            assert(before.bookmarks.last() == self.bookmarks@[n - 1]@);
            let last: i64 = self.bookmarks[n - 1].id;
            if last == i64::MAX {
                return Err(DbError::Full);
            }
            id = last + 1;
        }
        let mark = Bookmark { id, book_id, position, label: label.to_owned() };
        self.bookmarks.push(mark);
        self.changes.push(Change::Bookmark(id));
        proof {
            assert(views(self.bookmarks@) =~= before.bookmarks.push(mark@));
            put_bookmark_keeps_valid(before, book_id, position@, label@);
            assert(self.changes() =~= told.push(ChangeView::Bookmark(id)));
            assert(self@ =~= before.put_bookmark(book_id, position@, label@));
            put_bookmark_is_told(before, book_id, position@, label@);
            told_one(before, told, self@, ChangeView::Bookmark(id));
        }
        Ok(())
    }

    /// The bookmarks in a book, in the order of their positions.
    pub fn bookmarks(&self, book_id: i64) -> (r: Result<Vec<Bookmark>, DbError>)
        requires
            self.wf(),
        ensures
            r is Ok,
            views(r->Ok_0@) == listing(self@.bookmarks_in(book_id), |b: BookmarkView| bookmark_key(b)),
            is_listing(self@.bookmarks_in(book_id), |b: BookmarkView| bookmark_key(b), views(r->Ok_0@)),
    {
        let mut rows: Vec<Bookmark> = Vec::new();
        let mut keys: Vec<Key> = Vec::new();
        let mut i: usize = 0;
        let ghost all = self@.bookmarks;
        let ghost p = |b: BookmarkView| b.book_id == book_id;
        proof {
            reveal(Seq::filter);
            assert(views(rows@) =~= all.take(0).filter(p));
        }
        while i < self.bookmarks.len()
            invariant
                i <= self.bookmarks.len(),
                all == views(self.bookmarks@),
                p == (|b: BookmarkView| b.book_id == book_id),
                views(rows@) == all.take(i as int).filter(p),
                keys.len() == rows.len(),
                forall|k: int| 0 <= k < keys.len() ==> (#[trigger] keys@[k])@ == bookmark_key(rows@[k]@),
            decreases self.bookmarks.len() - i,
        {
            proof {
                filter_step(all, i as int, p);
                assert(all[i as int] == self.bookmarks@[i as int]@);
            }
            if self.bookmarks[i].book_id == book_id {
                let row = self.bookmarks[i].clone();
                let at: u128 = row.position.as_nanos();
                let key = Key { first: vec![at as i128], second: Vec::new(), last: row.id as i128 };
                assert(key@ =~= bookmark_key(row@));
                let ghost before = rows@;
                keys.push(key);
                rows.push(row);
                assert(views(rows@) =~= views(before).push(row@));
            }
            i = i + 1;
        }
        proof {
            assert(all.take(i as int) =~= all);
            assert(views(rows@) == self@.bookmarks_in(book_id));
            filter_pairs(all, p, |a: BookmarkView, b: BookmarkView| a.id < b.id);
            let v = all.filter(p);
            assert forall|i: int, j: int| 0 <= i < j < keys.len() implies (#[trigger] keys@[i])@ != (#[trigger] keys@[j])@ by {
                assert(views(rows@)[i] == v[i]);
                assert(views(rows@)[j] == v[j]);
                assert(v[i].id < v[j].id);
                assert(keys@[i]@.last == v[i].id);
                assert(keys@[j]@.last == v[j].id);
            }
        }
        let copy = |b: &Bookmark| -> (r: Bookmark)
            ensures
                r@ == b@,
        {
            b.clone()
        };
        Ok(listed(&rows, &keys, copy, Ghost(|b: BookmarkView| bookmark_key(b))))
    }

    /// The bookmark with this id, if there is one.
    pub fn bookmark(&self, id: i64) -> (r: Option<Bookmark>)
        requires
            self.wf(),
        ensures
            match r {
                Some(b) => b.id == id && self@.bookmarks.contains(b@),
                None => forall|i: int| 0 <= i < self@.bookmarks.len() ==> (#[trigger] self@.bookmarks[i]).id != id,
            },
    {
        let mut i: usize = 0;
        while i < self.bookmarks.len()
            invariant
                i <= self.bookmarks.len(),
                forall|k: int| 0 <= k < i ==> (#[trigger] self@.bookmarks[k]).id != id,
            decreases self.bookmarks.len() - i,
        {
            assert(self@.bookmarks[i as int] == self.bookmarks@[i as int]@);
            if self.bookmarks[i].id == id {
                return Some(self.bookmarks[i].clone());
            }
            i = i + 1;
        }
        None
    }

    /// Remove a bookmark.
    pub fn remove_bookmark(&mut self, id: i64) -> (r: Result<(), DbError>)
        requires
            old(self).wf(),
        ensures
            r is Ok,
            final(self).wf(),
            final(self).records(*old(self)),
            final(self)@ == old(self)@.without_bookmark(id),
            final(self).changes() == old(self).changes().push(ChangeView::Bookmark(id)),
    {
        let ghost before = self@;
        let ghost told = self.changes();
        let other = |b: &Bookmark| -> (r: bool)
            ensures
                r == (b@.id != id),
        {
            b.id != id
        };
        keep(&mut self.bookmarks, other, Ghost(|b: BookmarkView| b.id != id));
        self.changes.push(Change::Bookmark(id));
        proof {
            without_bookmark_keeps_valid(before, id);
            assert(self.changes() =~= told.push(ChangeView::Bookmark(id)));
            assert(self@ =~= before.without_bookmark(id));
            without_bookmark_is_told(before, id);
            told_one(before, told, self@, ChangeView::Bookmark(id));
        }
        Ok(())
    }

    // ---- history -----------------------------------------------------------

    /// Create or refresh the history entry for a book, stamping "last played"
    /// with a given time. Preserves an existing rating/note/first-played;
    /// `finished` and `added_manually` are OR-ed so they only ever turn on.
    pub fn upsert_history_from_book_at(&mut self, book: &Book, finished: bool, manual: bool, now: i64) -> (r: Result<(), DbError>)
        requires
            old(self).wf(),
        ensures
            final(self).wf(),
            final(self).records(*old(self)),
            entry_put(old(self)@, book@, finished, manual, now, final(self)@, r),
            r is Err ==> final(self).changes() == old(self).changes(),
            r is Ok ==> final(self).changes() == old(self).changes().push(
                ChangeView::History(old(self)@.id_for_key(book@.path)),
            ),
    {
        let ghost before = self@;
        let ghost told = self.changes();
        let id: i64;
        match self.find_key(book.path.as_str()) {
            Some(i) => {
                let ghost entry = self.history@[i as int]@;
                assert(entry == before.history[i as int]);
                let mut fresh = self.history[i].clone();
                id = fresh.id;
                fresh.title = book.title.clone();
                fresh.author = copy_text(&book.author);
                fresh.reader = copy_text(&book.reader);
                fresh.cover = copy_cover(&book.cover);
                fresh.last_played = Some(now);
                if fresh.first_played.is_none() {
                    fresh.first_played = Some(now);
                }
                fresh.finished = fresh.finished || finished;
                fresh.added_manually = fresh.added_manually || manual;
                assert(fresh@ =~= refreshed_entry(entry, book@, finished, manual, now));
                self.history.set(i, fresh);
                assert(views(self.history@) =~= before.history.update(i as int, fresh@));
            },
            None => {
                let n = self.history.len();
                if n == 0 {
                    id = 1;
                } else {
                    assert(before.history.last() == self.history@[n - 1]@);
                    let last: i64 = self.history[n - 1].id;
                    if last == i64::MAX {
                        proof {
                            unwritten_records_nothing(*self);
                        }
                        return Err(DbError::Full);
                    }
                    id = last + 1;
                }
                let fresh = HistoryEntry {
                    id,
                    book_key: book.path.clone(),
                    keyed: true,
                    title: book.title.clone(),
                    author: copy_text(&book.author),
                    reader: copy_text(&book.reader),
                    cover: copy_cover(&book.cover),
                    rating: None,
                    note: String::new(),
                    first_played: Some(now),
                    last_played: Some(now),
                    finished,
                    added_manually: manual,
                };
                assert(fresh@ =~= new_entry(id, book@, finished, manual, now));
                self.history.push(fresh);
                assert(views(self.history@) =~= before.history.push(fresh@));
            },
        }
        self.changes.push(Change::History(id));
        proof {
            put_entry_keeps_valid(before, book@, finished, manual, now);
            assert(self.changes() =~= told.push(ChangeView::History(id)));
            assert(self@ =~= before.put_entry(book@, finished, manual, now));
            put_entry_is_told(before, book@, finished, manual, now);
            told_one(before, told, self@, ChangeView::History(id));
        }
        Ok(())
    }

    /// Create or refresh the history entry for a book, stamping "last played"
    /// now. Preserves an existing rating/note/first-played; `finished` and
    /// `added_manually` are OR-ed so they only ever turn on.
    pub fn upsert_history_from_book(&mut self, book: &Book, finished: bool, manual: bool) -> (r: Result<(), DbError>)
        requires
            old(self).wf(),
        ensures
            final(self).wf(),
            final(self).records(*old(self)),
            exists|now: i64| entry_put(old(self)@, book@, finished, manual, now, final(self)@, r),
            r is Err ==> final(self).changes() == old(self).changes(),
            r is Ok ==> final(self).changes() == old(self).changes().push(
                ChangeView::History(old(self)@.id_for_key(book@.path)),
            ),
    {
        let now = now_unix();
        self.upsert_history_from_book_at(book, finished, manual, now)
    }

    fn find_entry(&self, id: i64) -> (r: Option<usize>)
        requires
            self.wf(),
        ensures
            match r {
                Some(i) => i < self.history.len() && self@.history[i as int].id == id,
                None => !has_entry(self@.history, id),
            },
    {
        let mut i: usize = 0;
        while i < self.history.len()
            invariant
                i <= self.history.len(),
                forall|k: int| 0 <= k < i ==> (#[trigger] self@.history[k]).id != id,
            decreases self.history.len() - i,
        {
            assert(self@.history[i as int] == self.history@[i as int]@);
            if self.history[i].id == id {
                return Some(i);
            }
            i = i + 1;
        }
        None
    }

    /// Replace the entry at place `i` by `entry`, which has its id.
    fn replace_entry(&mut self, i: usize, entry: HistoryEntry, Ghost(f): Ghost<spec_fn(HistoryView) -> HistoryView>)
        requires
            old(self).wf(),
            i < old(self)@.history.len(),
            entry@ == f(old(self)@.history[i as int]),
            forall|h: HistoryView| (#[trigger] f(h)).id == h.id && f(h).book_key == h.book_key && f(h).keyed == h.keyed,
            forall|h: HistoryView|
                (h.rating matches Some(r) ==> r <= MAX_RATING) ==> ((#[trigger] f(h)).rating matches Some(r) ==> r
                    <= MAX_RATING),
        ensures
            final(self).wf(),
            final(self).records(*old(self)),
            final(self)@ == old(self)@.change_entry(entry.id, f),
            final(self).changes() == old(self).changes().push(ChangeView::History(entry.id)),
    {
        let ghost before = self@;
        let ghost told = self.changes();
        let id: i64 = entry.id;
        self.history.set(i, entry);
        self.changes.push(Change::History(id));
        proof {
            assert(views(self.history@) =~= before.history.update(i as int, entry@));
            let after = before.change_entry(id, f).history;
            assert forall|k: int| 0 <= k < after.len() implies after[k] == views(self.history@)[k] by {
                if before.history[k].id == id {
                    one_entry_per_id(before.history, k, i as int);
                }
            }
            assert(views(self.history@) =~= after);
            change_entry_keeps_valid(before, id, f);
            assert(self.changes() =~= told.push(ChangeView::History(id)));
            assert(self@ =~= before.change_entry(id, f));
            change_entry_is_told(before, id, f);
            told_one(before, told, self@, ChangeView::History(id));
        }
    }

    /// Rate a history entry, or take its rating away.
    pub fn set_history_rating(&mut self, id: i64, rating: Option<u8>) -> (r: Result<(), DbError>)
        requires
            old(self).wf(),
        ensures
            r is Ok,
            final(self).wf(),
            final(self).records(*old(self)),
            final(self)@ == old(self)@.change_entry(id, rated(rating)),
            final(self).changes() == if has_entry(old(self)@.history, id) {
                old(self).changes().push(ChangeView::History(id))
            } else {
                old(self).changes()
            },
    {
        match self.find_entry(id) {
            Some(i) => {
                assert(self@.history[i as int] == self.history@[i as int]@);
                let mut entry = self.history[i].clone();
                entry.rating = match rating {
                    Some(r) => Some(if r > MAX_RATING { MAX_RATING } else { r }),
                    None => None,
                };
                self.replace_entry(i, entry, Ghost(rated(rating)));
            },
            None => {
                assert(self@.change_entry(id, rated(rating)) =~= self@);
                proof {
                    unwritten_records_nothing(*self);
                }
            },
        }
        Ok(())
    }

    /// Set the note of a history entry.
    pub fn set_history_note(&mut self, id: i64, note: &str) -> (r: Result<(), DbError>)
        requires
            old(self).wf(),
        ensures
            r is Ok,
            final(self).wf(),
            final(self).records(*old(self)),
            final(self)@ == old(self)@.change_entry(id, noted(note@)),
            final(self).changes() == if has_entry(old(self)@.history, id) {
                old(self).changes().push(ChangeView::History(id))
            } else {
                old(self).changes()
            },
    {
        match self.find_entry(id) {
            Some(i) => {
                assert(self@.history[i as int] == self.history@[i as int]@);
                let mut entry = self.history[i].clone();
                entry.note = note.to_owned();
                self.replace_entry(i, entry, Ghost(noted(note@)));
            },
            None => {
                assert(self@.change_entry(id, noted(note@)) =~= self@);
                proof {
                    unwritten_records_nothing(*self);
                }
            },
        }
        Ok(())
    }

    /// Set the "date listened" (Unix epoch seconds) for a history entry.
    pub fn set_history_date(&mut self, id: i64, epoch: i64) -> (r: Result<(), DbError>)
        requires
            old(self).wf(),
        ensures
            r is Ok,
            final(self).wf(),
            final(self).records(*old(self)),
            final(self)@ == old(self)@.change_entry(id, listened_at(epoch)),
            final(self).changes() == if has_entry(old(self)@.history, id) {
                old(self).changes().push(ChangeView::History(id))
            } else {
                old(self).changes()
            },
    {
        match self.find_entry(id) {
            Some(i) => {
                assert(self@.history[i as int] == self.history@[i as int]@);
                let mut entry = self.history[i].clone();
                entry.last_played = Some(epoch);
                self.replace_entry(i, entry, Ghost(listened_at(epoch)));
            },
            None => {
                assert(self@.change_entry(id, listened_at(epoch)) =~= self@);
                proof {
                    unwritten_records_nothing(*self);
                }
            },
        }
        Ok(())
    }

    /// Remove a history entry.
    pub fn remove_history(&mut self, id: i64) -> (r: Result<(), DbError>)
        requires
            old(self).wf(),
        ensures
            r is Ok,
            final(self).wf(),
            final(self).records(*old(self)),
            final(self)@ == old(self)@.without_entry(id),
            final(self).changes() == old(self).changes().push(ChangeView::History(id)),
    {
        let ghost before = self@;
        let ghost told = self.changes();
        let other = |h: &HistoryEntry| -> (r: bool)
            ensures
                r == (h@.id != id),
        {
            h.id != id
        };
        keep(&mut self.history, other, Ghost(|h: HistoryView| h.id != id));
        self.changes.push(Change::History(id));
        proof {
            without_entry_keeps_valid(before, id);
            assert(self.changes() =~= told.push(ChangeView::History(id)));
            assert(self@ =~= before.without_entry(id));
            without_entry_is_told(before, id);
            told_one(before, told, self@, ChangeView::History(id));
        }
        Ok(())
    }

    /// All history entries, most recently listened first.
    pub fn list_history(&self) -> (r: Result<Vec<HistoryEntry>, DbError>)
        requires
            self.wf(),
        ensures
            r is Ok,
            views(r->Ok_0@) == listing(self@.history, |h: HistoryView| history_key(h)),
            is_listing(self@.history, |h: HistoryView| history_key(h), views(r->Ok_0@)),
            r->Ok_0.len() == self@.history.len(),
    {
        let mut keys: Vec<Key> = Vec::new();
        let mut i: usize = 0;
        while i < self.history.len()
            invariant
                i <= self.history.len(),
                keys.len() == i,
                forall|k: int| 0 <= k < i ==> (#[trigger] keys@[k])@ == history_key(self.history@[k]@),
            decreases self.history.len() - i,
        {
            let key = Key {
                first: latest_first_key(self.history[i].last_played),
                second: Vec::new(),
                last: -(self.history[i].id as i128),
            };
            assert(key@ =~= history_key(self.history@[i as int]@));
            keys.push(key);
            i = i + 1;
        }
        proof {
            assert forall|i: int, j: int| 0 <= i < j < keys.len() implies (#[trigger] keys@[i])@ != (#[trigger] keys@[j])@ by {
                assert(self@.history[i] == self.history@[i]@ && self@.history[j] == self.history@[j]@);
                assert(self@.history[i].id < self@.history[j].id);
                assert(keys@[i]@.last == -self@.history[i].id);
                assert(keys@[j]@.last == -self@.history[j].id);
            }
        }
        let copy = |h: &HistoryEntry| -> (r: HistoryEntry)
            ensures
                r@ == h@,
        {
            h.clone()
        };
        Ok(listed(&self.history, &keys, copy, Ghost(|h: HistoryView| history_key(h))))
    }

    /// The history entry for a book path, if one exists.
    pub fn history_for_key(&self, key: &str) -> (r: Result<Option<HistoryEntry>, DbError>)
        requires
            self.wf(),
        ensures
            r is Ok,
            view_of(r->Ok_0) == self@.entry(key@),
    {
        match self.find_key(key) {
            Some(i) => {
                assert(self@.history[i as int] == self.history@[i as int]@);
                Ok(Some(self.history[i].clone()))
            },
            None => Ok(None),
        }
    }

    /// The history entry with this id, if there is one.
    pub fn history_entry(&self, id: i64) -> (r: Option<HistoryEntry>)
        requires
            self.wf(),
        ensures
            match r {
                Some(h) => h.id == id && self@.history.contains(h@),
                None => !has_entry(self@.history, id),
            },
    {
        match self.find_entry(id) {
            Some(i) => {
                assert(self@.history[i as int] == self.history@[i as int]@);
                Some(self.history[i].clone())
            },
            None => None,
        }
    }
}

/// Writing a setting, in its place or at the end, changes that setting alone.
proof fn settings_after(before: Seq<Setting>, after: Seq<Setting>, i: int, key: Seq<char>, value: Seq<char>)
    requires
        forall|i: int, j: int| 0 <= i < j < before.len() ==> (#[trigger] before[i]).key@ != (#[trigger] before[j]).key@,
        0 <= i <= before.len(),
        after.len() == if i < before.len() { before.len() } else { before.len() + 1 },
        after[i].key@ == key,
        after[i].value@ == value,
        forall|k: int| 0 <= k < before.len() && k != i ==> #[trigger] after[k] == before[k],
        i < before.len() ==> before[i].key@ == key,
        i == before.len() ==> !has_setting(before, key),
    ensures
        forall|i: int, j: int| 0 <= i < j < after.len() ==> (#[trigger] after[i]).key@ != (#[trigger] after[j]).key@,
        settings_map(after) == settings_map(before).insert(key, value),
{
    assert forall|a: int, b: int| 0 <= a < b < after.len() implies (#[trigger] after[a]).key@ != (#[trigger] after[b]).key@ by {
        if a != i && b != i {
            assert(after[a] == before[a] && after[b] == before[b]);
        } else if i < before.len() {
            assert(before[a].key@ != before[b].key@);
        } else {
            assert(after[a] == before[a]);
        }
    }
    let m = settings_map(after);
    let w = settings_map(before).insert(key, value);
    assert forall|k: Seq<char>| m.dom().contains(k) == w.dom().contains(k) by {
        if k == key {
            assert(after[i].key@ == key);
        } else {
            if has_setting(after, k) {
                let p = setting_place(after, k);
                assert(before[p].key@ == k);
            }
            if has_setting(before, k) {
                let p = setting_place(before, k);
                assert(after[p].key@ == k);
            }
        }
    }
    assert forall|k: Seq<char>| m.dom().contains(k) implies #[trigger] m[k] == w[k] by {
        let p = setting_place(after, k);
        if k == key {
            if p != i {
                if p < i {
                    assert(after[p].key@ != after[i].key@);
                } else {
                    assert(after[i].key@ != after[p].key@);
                }
            }
        } else {
            assert(after[p] == before[p]);
            let q = setting_place(before, k);
            assert(before[p].key@ == k);
            if p < q {
                assert(before[p].key@ != before[q].key@);
            } else if q < p {
                assert(before[q].key@ != before[p].key@);
            }
        }
    }
    assert(m =~= w);
}

} // verus!
