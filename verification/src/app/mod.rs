//! The player behind its windows: what is loaded and shown, and what each action
//! of the listener makes of it. Drawing, files and devices lie outside: where an
//! action needs them, it says so in what it returns.

pub mod actions;
pub mod browsing;
pub mod desktop;
pub mod effects;
pub mod entries;
pub mod laws;
pub mod open;
pub mod progress;
pub mod standing;
pub mod timing;

use vstd::prelude::*;

use crate::audio::{EngineView, LoadedView, PlaybackEngine};
use crate::browse::{Category, LibView};
use crate::library::db::{now_unix, Database};
use crate::library::tables::{book_key, bookmark_key, history_key, DatabaseView, Sort};
use crate::library::{
    span_of, text_of, view_of, views, Book, BookView, Bookmark, BookmarkView, HistoryEntry, HistoryView,
};
use crate::order::listing;
use crate::time::{Duration, MAX_NANOS, NANOS_PER_SEC};
use crate::toast::{ToastView, Toasts};

verus! {

broadcast use crate::library::db::group_records;

/// Which window is shown.
#[derive(Debug, Clone, Copy, PartialEq, Eq, Structural)]
pub enum Screen {
    Library,
    Player,
}

/// Sleep-timer mode.
#[derive(Debug, Clone, Copy)]
pub enum Sleep {
    Off,
    /// Pause at this moment.
    Until(Duration),
    /// Pause once we advance past this chapter index.
    EndOfChapter(usize),
}

/// What a [`Sleep`] holds.
pub enum SleepView {
    Off,
    Until(nat),
    EndOfChapter(usize),
}

impl View for Sleep {
    type V = SleepView;

    open spec fn view(&self) -> SleepView {
        match self {
            Sleep::Off => SleepView::Off,
            Sleep::Until(t) => SleepView::Until(t@),
            Sleep::EndOfChapter(c) => SleepView::EndOfChapter(*c),
        }
    }
}

/// A moment, by both clocks that matter.
#[derive(Debug, Clone, Copy)]
pub struct Moment {
    /// How long the player has been running.
    pub tick: Duration,
    /// The time, in seconds since the Unix epoch.
    pub stamp: i64,
}

/// What a [`Moment`] holds.
pub struct MomentView {
    pub tick: nat,
    pub stamp: i64,
}

impl View for Moment {
    type V = MomentView;

    open spec fn view(&self) -> MomentView {
        MomentView { tick: self.tick@, stamp: self.stamp }
    }
}

impl Moment {
    /// This moment, by the clock of the machine, when the player has been
    /// running for so long.
    pub fn now(tick: Duration) -> (r: Moment)
        ensures
            r.tick@ == tick@,
    {
        Moment { tick, stamp: now_unix() }
    }
}

/// A moment some seconds later, or the last there is.
pub open spec fn later(tick: nat, secs: u64) -> nat {
    if tick + secs * NANOS_PER_SEC <= MAX_NANOS {
        (tick + secs * NANOS_PER_SEC) as nat
    } else {
        MAX_NANOS as nat
    }
}

/// The time from one moment to another, or none.
pub open spec fn since(tick: nat, then: nat) -> nat {
    if tick >= then {
        (tick - then) as nat
    } else {
        0
    }
}

pub(crate) fn secs_later(tick: Duration, secs: u64) -> (r: Duration)
    ensures
        r@ == later(tick@, secs),
{
    match tick.checked_add(&Duration::from_secs(secs)) {
        Some(t) => t,
        None => Duration::from_nanos_saturating(MAX_NANOS),
    }
}

/// The player.
pub struct PlayerApp {
    pub db: Database,
    pub engine: Option<PlaybackEngine>,
    pub screen: Screen,
    // Library state.
    pub books: Vec<Book>,
    pub sort: Sort,
    pub search: String,
    pub category: Category,
    pub selected_author: Option<String>,
    pub selected_reader: Option<String>,
    pub lib_view: LibView,
    pub failures: Vec<(String, String)>,
    // My History.
    pub history: Vec<HistoryEntry>,
    // Player state.
    pub current_book_id: Option<i64>,
    pub bookmarks: Vec<Bookmark>,
    /// History entry for the loaded book (rating/note shown in the player).
    pub current_history: Option<HistoryEntry>,
    pub note_edit: String,
    /// Set once we've auto-added the loaded book to history on finishing it.
    pub history_pushed: bool,
    pub sleep: Sleep,
    /// When true, the sleep timer powers the machine off instead of just pausing.
    pub shutdown_on_sleep: bool,
    /// Set when a shutdown is pending; the user can cancel until this moment.
    pub shutdown_at: Option<Duration>,
    /// Last observed playback position, used to spot manual seeks/track changes
    /// so an "end of chapter" sleep timer isn't tripped by them.
    pub last_pos: Option<Duration>,
    pub last_save: Duration,
    // Desktop integration.
    pub last_mpris_playing: Option<bool>,
    pub last_pos_push: Duration,
    pub status: String,
    /// Transient corner notifications (rescan results, "added to history", …).
    pub toasts: Toasts,
}

/// What a [`PlayerApp`] holds.
#[verifier::ext_equal]
pub struct PlayerView {
    pub db: DatabaseView,
    pub engine: Option<EngineView>,
    pub screen: Screen,
    pub books: Seq<BookView>,
    pub sort: Sort,
    pub search: Seq<char>,
    pub category: Category,
    pub selected_author: Option<Seq<char>>,
    pub selected_reader: Option<Seq<char>>,
    pub lib_view: LibView,
    pub failures: Seq<(Seq<char>, Seq<char>)>,
    pub history: Seq<HistoryView>,
    pub current_book_id: Option<i64>,
    pub bookmarks: Seq<BookmarkView>,
    pub current_history: Option<HistoryView>,
    pub note_edit: Seq<char>,
    pub history_pushed: bool,
    pub sleep: SleepView,
    pub shutdown_on_sleep: bool,
    pub shutdown_at: Option<nat>,
    pub last_pos: Option<nat>,
    pub last_save: nat,
    pub last_mpris_playing: Option<bool>,
    pub last_pos_push: nat,
    pub status: Seq<char>,
    pub toasts: Seq<ToastView>,
}

impl View for PlayerApp {
    type V = PlayerView;

    open spec fn view(&self) -> PlayerView {
        PlayerView {
            db: self.db@,
            engine: view_of(self.engine),
            screen: self.screen,
            books: views(self.books@),
            sort: self.sort,
            search: self.search@,
            category: self.category,
            selected_author: text_of(self.selected_author),
            selected_reader: text_of(self.selected_reader),
            lib_view: self.lib_view,
            failures: views(self.failures@),
            history: views(self.history@),
            current_book_id: self.current_book_id,
            bookmarks: views(self.bookmarks@),
            current_history: view_of(self.current_history),
            note_edit: self.note_edit@,
            history_pushed: self.history_pushed,
            sleep: self.sleep@,
            shutdown_on_sleep: self.shutdown_on_sleep,
            shutdown_at: span_of(self.shutdown_at),
            last_pos: span_of(self.last_pos),
            last_save: self.last_save@,
            last_mpris_playing: self.last_mpris_playing,
            last_pos_push: self.last_pos_push@,
            status: self.status@,
            toasts: self.toasts@,
        }
    }
}

// ---- what is known of the player -------------------------------------------

impl PlayerView {
    /// The book that is loaded.
    pub open spec fn loaded(self) -> Option<LoadedView> {
        match self.engine {
            Some(e) => e.current,
            None => None,
        }
    }

    /// Whether a book is being played.
    pub open spec fn is_playing(self) -> bool {
        self.engine is Some && self.engine->Some_0.current is Some && !self.engine->Some_0.paused
    }

    /// The chapter that plays.
    pub open spec fn chapter(self) -> Option<usize> {
        match self.engine {
            Some(e) => e.chapter(),
            None => None,
        }
    }

    /// The player with the books listed anew.
    pub open spec fn with_books(self) -> PlayerView {
        PlayerView { books: listing(self.db.book_views(), |b: BookView| book_key(self.sort, b)), ..self }
    }

    /// The player with the history listed anew.
    pub open spec fn with_history(self) -> PlayerView {
        PlayerView { history: listing(self.db.history, |h: HistoryView| history_key(h)), ..self }
    }

    /// The player with the bookmarks of a book listed anew.
    pub open spec fn with_bookmarks(self, id: i64) -> PlayerView {
        PlayerView { bookmarks: listing(self.db.bookmarks_in(id), |b: BookmarkView| bookmark_key(b)), ..self }
    }

    /// The player with the history entry of a book, if any, and its note.
    pub open spec fn with_entry_of(self, book: BookView) -> PlayerView {
        let entry = self.db.entry(book.path);
        PlayerView {
            current_history: entry,
            note_edit: match entry {
                Some(h) => h.note,
                None => Seq::empty(),
            },
            ..self
        }
    }

    /// The player with another database.
    pub open spec fn with_db(self, db: DatabaseView) -> PlayerView {
        PlayerView { db, ..self }
    }
}

/// The database after a history entry was kept, where there is room for it.
pub open spec fn entry_kept(db: DatabaseView, book: BookView, finished: bool, manual: bool, stamp: i64) -> DatabaseView {
    if db.can_put_entry(book.path) {
        db.put_entry(book, finished, manual, stamp)
    } else {
        db
    }
}

impl PlayerApp {
    /// What holds of the player at all times.
    pub open spec fn wf(&self) -> bool {
        self.db.wf()
    }

    /// Whether everything that was written to the library since `before` has
    /// been recorded there.
    pub open spec fn records(self, before: PlayerApp) -> bool {
        self.db.records(before.db)
    }

    pub(crate) fn keep_entry(&mut self, book: &Book, finished: bool, manual: bool, stamp: i64)
        requires
            old(self).wf(),
        ensures
            final(self).wf(),
            final(self).records(*old(self)),
            final(self)@ == old(self)@.with_db(entry_kept(old(self)@.db, book@, finished, manual, stamp)),
    {
        let _ = self.db.upsert_history_from_book_at(book, finished, manual, stamp);
    }

    /// List the books anew.
    pub fn refresh_books(&mut self)
        requires
            old(self).wf(),
        ensures
            final(self).wf(),
            final(self).records(*old(self)),
            final(self)@ == old(self)@.with_books(),
    {
        match self.db.list_books(self.sort) {
            Ok(books) => {
                self.books = books;
            },
            Err(_) => {},
        }
    }

    /// List the history anew (after edits).
    pub fn refresh_history(&mut self)
        requires
            old(self).wf(),
        ensures
            final(self).wf(),
            final(self).records(*old(self)),
            final(self)@ == old(self)@.with_history(),
    {
        match self.db.list_history() {
            Ok(history) => {
                self.history = history;
            },
            Err(_) => {},
        }
    }

    pub(crate) fn refresh_bookmarks(&mut self, id: i64)
        requires
            old(self).wf(),
        ensures
            final(self).wf(),
            final(self).records(*old(self)),
            final(self)@ == old(self)@.with_bookmarks(id),
    {
        match self.db.bookmarks(id) {
            Ok(bookmarks) => {
                self.bookmarks = bookmarks;
            },
            Err(_) => {},
        }
    }

    pub(crate) fn book(&self, id: i64) -> (r: Option<Book>)
        requires
            self.wf(),
        ensures
            view_of(r) == self@.db.book(id),
    {
        match self.db.get_book(id) {
            Ok(b) => b,
            Err(_) => None,
        }
    }

    /// Load the My-History entry (rating/note) for a book, if any.
    pub(crate) fn load_current_history(&mut self, book: &Book)
        requires
            old(self).wf(),
        ensures
            final(self).wf(),
            final(self).records(*old(self)),
            final(self)@ == old(self)@.with_entry_of(book@),
    {
        match self.db.history_for_key(book.path.as_str()) {
            Ok(entry) => {
                self.note_edit = match &entry {
                    Some(h) => h.note.clone(),
                    None => String::new(),
                };
                self.current_history = entry;
            },
            Err(_) => {},
        }
    }
}

// ---- starting --------------------------------------------------------------

/// What is said at the start: that all is ready, or why the library on disk
/// could not be used.
pub open spec fn opening_text(error: Option<Seq<char>>) -> Seq<char> {
    match error {
        Some(e) => "Using a temporary library (couldn't open on disk: "@ + e + ")"@,
        None => "Ready."@,
    }
}

/// What is said at the start.
pub fn opening_status(error: &Option<String>) -> (r: String)
    ensures
        r@ == opening_text(text_of(*error)),
{
    match error {
        Some(e) => {
            let mut out = "Using a temporary library (couldn't open on disk: ".to_owned();
            out.append(e.as_str());
            out.append(")");
            out
        },
        None => "Ready.".to_owned(),
    }
}

/// The layout that a library remembers.
pub open spec fn remembered_view(db: DatabaseView) -> LibView {
    if db.settings.dom().contains("lib_view"@) {
        LibView::of_key(db.settings["lib_view"@])
    } else {
        LibView::Icons
    }
}

/// The category that a library remembers.
pub open spec fn remembered_category(db: DatabaseView) -> Category {
    if db.settings.dom().contains("category"@) {
        Category::of_key(db.settings["category"@])
    } else {
        Category::Books
    }
}

impl PlayerView {
    /// A player that was just started with a library: nothing is loaded, and
    /// books and history are listed.
    pub open spec fn started(db: DatabaseView, status: Seq<char>, tick: nat) -> PlayerView {
        PlayerView {
            db,
            engine: None,
            screen: Screen::Library,
            books: Seq::empty(),
            sort: Sort::RecentlyPlayed,
            search: Seq::empty(),
            category: remembered_category(db),
            selected_author: None,
            selected_reader: None,
            lib_view: remembered_view(db),
            failures: Seq::empty(),
            history: Seq::empty(),
            current_book_id: None,
            bookmarks: Seq::empty(),
            current_history: None,
            note_edit: Seq::empty(),
            history_pushed: false,
            sleep: SleepView::Off,
            shutdown_on_sleep: false,
            shutdown_at: None,
            last_pos: None,
            last_save: tick,
            last_mpris_playing: None,
            last_pos_push: tick,
            status,
            toasts: Seq::empty(),
        }.with_books().with_history()
    }
}

impl PlayerApp {
    /// A player with a library.
    pub fn new(db: Database, status: String, now: Duration) -> (r: PlayerApp)
        requires
            db.wf(),
        ensures
            r.wf(),
            r@ == PlayerView::started(db@, status@, now@),
    {
        let lib_view = match db.get_setting("lib_view") {
            Some(s) => LibView::from_key(s.as_str()),
            None => LibView::Icons,
        };
        let category = match db.get_setting("category") {
            Some(s) => Category::from_key(s.as_str()),
            None => Category::Books,
        };
        let mut app = PlayerApp {
            db,
            engine: None,
            screen: Screen::Library,
            books: Vec::new(),
            sort: Sort::RecentlyPlayed,
            search: String::new(),
            category,
            selected_author: None,
            selected_reader: None,
            lib_view,
            failures: Vec::new(),
            history: Vec::new(),
            current_book_id: None,
            bookmarks: Vec::new(),
            current_history: None,
            note_edit: String::new(),
            history_pushed: false,
            sleep: Sleep::Off,
            shutdown_on_sleep: false,
            shutdown_at: None,
            last_pos: None,
            last_save: now,
            last_mpris_playing: None,
            last_pos_push: now,
            status,
            toasts: Toasts::default(),
        };
        proof {
            assert(views(app.failures@) =~= Seq::empty());
            assert(views(app.bookmarks@) =~= Seq::empty());
            assert(app.search@ =~= Seq::empty());
            assert(app.note_edit@ =~= Seq::empty());
        }
        app.refresh_books();
        app.refresh_history();
        assert(app@ =~= PlayerView::started(db@, status@, now@));
        app
    }
}

} // verus!
