//! The actions of the listener, and what comes of scanning.

use vstd::prelude::*;

use crate::app::open::Opening;
use crate::app::progress::{sleep_status, sleep_status_text};
use crate::app::{entry_kept, Moment, MomentView, PlayerApp, PlayerView, Screen, Sleep, SleepView};
use crate::dates::{fmt_date, listened_text, parse_date, parsed_date};
use crate::library::db::{listened_at, noted, rated};
use crate::library::scan::{ImportReport, ReportView};
use crate::library::tables::{DatabaseView, Sort};
use crate::library::{view_of, views, Book, HistoryEntry, HistoryView};
use crate::text::decimal;
use crate::text;
use crate::time::Duration;
use crate::toast::{Level, ToastView};

verus! {

broadcast use crate::library::db::group_records;

// ---- bookmarks -------------------------------------------------------------

impl PlayerView {
    /// The title of the chapter that plays.
    pub open spec fn chapter_title(self) -> Seq<char> {
        match self.loaded() {
            Some(b) => match self.chapter() {
                Some(i) => if i < b.meta.chapters.len() {
                    b.meta.chapters[i as int].title
                } else {
                    Seq::empty()
                },
                None => Seq::empty(),
            },
            None => Seq::empty(),
        }
    }

    /// The player after a bookmark was set where the loaded book stands.
    pub open spec fn bookmarked(self) -> PlayerView {
        if self.engine is Some && self.current_book_id is Some {
            let id = self.current_book_id->Some_0;
            let db = if self.db.can_bookmark(id) {
                self.db.put_bookmark(id, self.engine->Some_0.position(), self.chapter_title())
            } else {
                self.db
            };
            self.with_db(db).with_bookmarks(id)
        } else {
            self
        }
    }
}

impl PlayerApp {
    /// Bookmark the current position, under the title of the chapter.
    pub fn add_bookmark(&mut self)
        requires
            old(self).wf(),
        ensures
            final(self).wf(),
            final(self).records(*old(self)),
            final(self)@ == old(self)@.bookmarked(),
    {
        let id: i64 = match self.current_book_id {
            Some(id) => id,
            None => {
                return;
            },
        };
        let pos: Duration;
        let mut label = String::new();
        match &self.engine {
            Some(e) => {
                pos = e.position();
                match (e.current(), e.current_chapter()) {
                    (Some(b), Some(i)) => {
                        assert(b@.meta.chapters.len() == b.meta.chapters.len());
                        if i < b.meta.chapters.len() {
                            assert(b@.meta.chapters[i as int] == b.meta.chapters@[i as int]@);
                            label = b.meta.chapters[i].title.clone();
                        }
                    },
                    _ => {},
                }
            },
            None => {
                return;
            },
        }
        assert(label@ =~= self@.chapter_title());
        let _ = self.db.add_bookmark(id, pos, label.as_str());
        self.refresh_bookmarks(id);
    }
}

// ---- actions ---------------------------------------------------------------

/// What the listener asks for.
#[derive(Debug)]
pub enum Action {
    AddFolder(String),
    OpenBook(i64),
    ShowPlayer,
    Rescan,
    Back,
    SetSort(Sort),
    AddBookmark,
    JumpTo(Duration),
    DeleteBookmark(i64),
    SetSleep(Sleep),
    RateBook(u8),
    SetNote(String),
    AddToHistory,
    AddBookToHistory(i64),
    RemoveHistory(i64),
    RateHistory(i64, u8),
    SetHistoryNote(i64, String),
    SetHistoryDate(i64, i64),
}

/// What an [`Action`] holds.
pub enum ActionView {
    AddFolder(Seq<char>),
    OpenBook(i64),
    ShowPlayer,
    Rescan,
    Back,
    SetSort(Sort),
    AddBookmark,
    JumpTo(nat),
    DeleteBookmark(i64),
    SetSleep(SleepView),
    RateBook(u8),
    SetNote(Seq<char>),
    AddToHistory,
    AddBookToHistory(i64),
    RemoveHistory(i64),
    RateHistory(i64, u8),
    SetHistoryNote(i64, Seq<char>),
    SetHistoryDate(i64, i64),
}

impl View for Action {
    type V = ActionView;

    open spec fn view(&self) -> ActionView {
        match self {
            Action::AddFolder(p) => ActionView::AddFolder(p@),
            Action::OpenBook(id) => ActionView::OpenBook(*id),
            Action::ShowPlayer => ActionView::ShowPlayer,
            Action::Rescan => ActionView::Rescan,
            Action::Back => ActionView::Back,
            Action::SetSort(s) => ActionView::SetSort(*s),
            Action::AddBookmark => ActionView::AddBookmark,
            Action::JumpTo(p) => ActionView::JumpTo(p@),
            Action::DeleteBookmark(id) => ActionView::DeleteBookmark(*id),
            Action::SetSleep(s) => ActionView::SetSleep(s@),
            Action::RateBook(r) => ActionView::RateBook(*r),
            Action::SetNote(n) => ActionView::SetNote(n@),
            Action::AddToHistory => ActionView::AddToHistory,
            Action::AddBookToHistory(id) => ActionView::AddBookToHistory(*id),
            Action::RemoveHistory(id) => ActionView::RemoveHistory(*id),
            Action::RateHistory(id, r) => ActionView::RateHistory(*id, *r),
            Action::SetHistoryNote(id, n) => ActionView::SetHistoryNote(*id, n@),
            Action::SetHistoryDate(id, e) => ActionView::SetHistoryDate(*id, *e),
        }
    }
}

/// The way a library item was interacted with.
#[derive(Debug, Clone, Copy, PartialEq, Eq, Structural)]
pub enum Hit {
    /// Left-clicked: open the book in the player.
    Open,
    /// Chosen from the right-click menu: add to My History.
    AddToHistory,
}

/// Map a library item's interaction to the action it triggers.
pub fn hit_action(hit: Option<Hit>, book_id: i64) -> (r: Option<Action>)
    ensures
        view_of(r) == match hit {
            Some(Hit::Open) => Some(ActionView::OpenBook(book_id)),
            Some(Hit::AddToHistory) => Some(ActionView::AddBookToHistory(book_id)),
            None => None,
        },
{
    match hit {
        Some(Hit::Open) => Some(Action::OpenBook(book_id)),
        Some(Hit::AddToHistory) => Some(Action::AddBookToHistory(book_id)),
        None => None,
    }
}

/// The day of a history entry as it is shown: nothing where it is not known.
pub open spec fn shown_date(entry: HistoryView) -> Seq<char> {
    match entry.last_played {
        Some(e) => listened_text(e),
        None => Seq::empty(),
    }
}

/// The day of a history entry as it is shown: nothing where it is not known.
pub fn date_shown(entry: &HistoryEntry) -> (r: String)
    ensures
        r@ == shown_date(entry@),
{
    match fmt_date(entry.last_played) {
        Some(s) => s,
        None => {
            let s = String::new();
            assert(s@ =~= Seq::empty());
            s
        },
    }
}

/// What comes of a text that was written as the day of a history entry: the
/// entry gets that day, or where the text names none, the day that is shown
/// again.
pub fn date_written(entry: &HistoryEntry, written: &str) -> (r: Result<Action, String>)
    ensures
        match parsed_date(written@) {
            Some(t) => r is Ok && r->Ok_0@ == ActionView::SetHistoryDate(entry@.id, t as i64),
            None => r is Err && r->Err_0@ == shown_date(entry@),
        },
{
    match parse_date(written) {
        Some(epoch) => Ok(Action::SetHistoryDate(entry.id, epoch)),
        None => Err(date_shown(entry)),
    }
}

/// What an action asks of the world outside.
#[derive(Debug)]
pub enum Request {
    Nothing,
    /// Scan this folder, and report.
    Scan(String),
    /// Scan these folders, and report on each.
    ScanAll(Vec<String>),
    /// Load this book.
    Load(Book),
}

/// The toast for a book that was added to the history by hand.
pub open spec fn added_text(title: Seq<char>) -> Seq<char> {
    "Added \u{201c}"@ + title + "\u{201d} to My History."@
}

impl PlayerView {
    /// The player after an action. Scanning and loading are still to come.
    pub open spec fn applied(self, action: ActionView, at: MomentView) -> PlayerView {
        match action {
            ActionView::AddFolder(p) => self.with_db(
                DatabaseView { locations: self.db.locations.insert(p), ..self.db },
            ),
            ActionView::OpenBook(id) => self.opening(id),
            ActionView::ShowPlayer => if self.loaded() is Some {
                PlayerView { screen: Screen::Player, ..self }
            } else {
                self
            },
            ActionView::Rescan => PlayerView { failures: Seq::empty(), ..self },
            ActionView::Back => PlayerView { screen: Screen::Library, ..self.saved(at) }.with_books(),
            ActionView::SetSort(s) => PlayerView { sort: s, ..self }.with_books(),
            ActionView::AddBookmark => self.bookmarked(),
            ActionView::JumpTo(pos) => self.at_position(pos),
            ActionView::DeleteBookmark(id) => {
                let removed = self.with_db(self.db.without_bookmark(id));
                match self.current_book_id {
                    Some(book) => removed.with_bookmarks(book),
                    None => removed,
                }
            },
            ActionView::SetSleep(s) => PlayerView { sleep: s, status: sleep_status_text(s, at.tick), ..self },
            ActionView::RateBook(r) => {
                let with = self.with_entry(false, at.stamp);
                match with.entry_id() {
                    Some(id) => with.with_db(
                        with.db.change_entry(id, rated(Some(r))),
                    ).with_entry_reread(),
                    None => with,
                }
            },
            ActionView::SetNote(n) => {
                let with = self.with_entry(false, at.stamp);
                match with.entry_id() {
                    Some(id) => with.with_db(
                        with.db.change_entry(id, noted(n)),
                    ).with_entry_reread(),
                    None => with,
                }
            },
            ActionView::AddToHistory => self.with_entry(true, at.stamp),
            ActionView::AddBookToHistory(id) => match self.db.book(id) {
                Some(book) => {
                    let kept = self.with_db(entry_kept(self.db, book, book.finished, true, at.stamp));
                    let shown = if self.current_book_id == Some(id) {
                        kept.with_entry_of(book)
                    } else {
                        kept
                    };
                    PlayerView {
                        toasts: self.toasts.push(
                            ToastView { text: added_text(book.title), level: Level::Success, created: at.tick },
                        ),
                        ..shown.with_history()
                    }
                },
                None => self,
            },
            ActionView::RemoveHistory(id) => {
                let removed = self.with_db(self.db.without_entry(id));
                (if self.is_current_entry(id) {
                    PlayerView { current_history: None, note_edit: Seq::empty(), ..removed }
                } else {
                    removed
                }).with_history()
            },
            ActionView::RateHistory(id, r) => {
                let changed = self.with_db(self.db.change_entry(id, rated(Some(r))));
                if self.is_current_entry(id) {
                    changed.with_entry_reread()
                } else {
                    changed.with_history()
                }
            },
            ActionView::SetHistoryNote(id, n) => self.with_db(
                self.db.change_entry(id, noted(n)),
            ).with_history(),
            ActionView::SetHistoryDate(id, epoch) => self.with_db(
                self.db.change_entry(id, listened_at(epoch)),
            ).with_history(),
        }
    }

    /// The player at another position of the loaded book.
    pub open spec fn at_position(self, pos: nat) -> PlayerView {
        PlayerView {
            engine: match self.engine {
                Some(e) => Some(e.sought(pos)),
                None => None,
            },
            ..self
        }
    }

    /// What an action asks of the world outside.
    pub open spec fn asks(self, action: ActionView, r: Request) -> bool {
        match action {
            ActionView::AddFolder(p) => r matches Request::Scan(q) && q@ == p,
            ActionView::Rescan => r matches Request::ScanAll(roots) && views(roots@).to_set() == self.db.locations && (
            forall|i: int, j: int|
                0 <= i < j < roots@.len() ==> crate::order::text_before((#[trigger] roots@[i])@, (#[trigger] roots@[j])@)),
            ActionView::OpenBook(id) => match r {
                Request::Load(book) => !self.is_loaded(id) && self.db.book(id) == Some(book@),
                Request::Nothing => self.is_loaded(id) || self.db.book(id) is None,
                _ => false,
            },
            _ => r is Nothing,
        }
    }
}

impl PlayerApp {
    /// Do what the listener asks for. Where files or devices are needed for it,
    /// the request says which.
    pub fn apply(&mut self, action: Action, at: Moment) -> (r: Request)
        requires
            old(self).wf(),
        ensures
            final(self).wf(),
            final(self).records(*old(self)),
            final(self)@ == old(self)@.applied(action@, at@),
            old(self)@.asks(action@, r),
    {
        match action {
            Action::AddFolder(p) => {
                let _ = self.db.add_storage_location(p.as_str());
                Request::Scan(p)
            },
            Action::OpenBook(id) => match self.open_book(id) {
                Opening::Wanted(book) => Request::Load(book),
                Opening::Settled => Request::Nothing,
            },
            Action::ShowPlayer => {
                if self.has_loaded() {
                    self.screen = Screen::Player;
                }
                Request::Nothing
            },
            Action::Rescan => {
                self.failures = Vec::new();
                assert(views(self.failures@) =~= Seq::empty());
                match self.db.storage_locations() {
                    Ok(roots) => Request::ScanAll(roots),
                    Err(_) => Request::Nothing,
                }
            },
            Action::Back => {
                self.go_back(at);
                Request::Nothing
            },
            Action::SetSort(s) => {
                self.sort = s;
                self.refresh_books();
                Request::Nothing
            },
            Action::AddBookmark => {
                self.add_bookmark();
                Request::Nothing
            },
            Action::JumpTo(pos) => {
                self.jump_to(pos);
                Request::Nothing
            },
            Action::DeleteBookmark(id) => {
                self.delete_bookmark(id, at);
                Request::Nothing
            },
            Action::SetSleep(s) => {
                self.sleep = s;
                self.status = sleep_status(s, at.tick);
                Request::Nothing
            },
            Action::RateBook(r) => {
                self.rate_book(r, at);
                Request::Nothing
            },
            Action::SetNote(note) => {
                self.set_note(note.as_str(), at);
                Request::Nothing
            },
            Action::AddToHistory => {
                let _ = self.ensure_history_entry(true, at.stamp);
                Request::Nothing
            },
            Action::AddBookToHistory(id) => {
                self.add_book_to_history(id, at);
                Request::Nothing
            },
            Action::RemoveHistory(id) => {
                self.remove_from_history(id, at);
                Request::Nothing
            },
            Action::RateHistory(id, r) => {
                self.rate_history(id, r, at);
                Request::Nothing
            },
            Action::SetHistoryNote(id, note) => {
                let _ = self.db.set_history_note(id, note.as_str());
                self.refresh_history();
                Request::Nothing
            },
            Action::SetHistoryDate(id, epoch) => {
                let _ = self.db.set_history_date(id, epoch);
                self.refresh_history();
                Request::Nothing
            },
        }
    }

    fn jump_to(&mut self, pos: Duration)
        requires
            old(self).wf(),
        ensures
            final(self).wf(),
            final(self).records(*old(self)),
            final(self)@ == old(self)@.at_position(pos@),
    {
        match self.engine.take() {
            Some(e) => {
                let mut engine = e;
                engine.seek(pos);
                self.engine = Some(engine);
            },
            None => {},
        }
    }

    fn go_back(&mut self, at: Moment)
        requires
            old(self).wf(),
        ensures
            final(self).wf(),
            final(self).records(*old(self)),
            final(self)@ == old(self)@.applied(ActionView::Back, at@),
    {
        self.save_progress(at);
        self.screen = Screen::Library;
        self.refresh_books();
    }

    fn delete_bookmark(&mut self, id: i64, at: Moment)
        requires
            old(self).wf(),
        ensures
            final(self).wf(),
            final(self).records(*old(self)),
            final(self)@ == old(self)@.applied(ActionView::DeleteBookmark(id), at@),
    {
        let _ = self.db.remove_bookmark(id);
        match self.current_book_id {
            Some(book) => {
                self.refresh_bookmarks(book);
            },
            None => {},
        }
    }

    fn rate_book(&mut self, rating: u8, at: Moment)
        requires
            old(self).wf(),
        ensures
            final(self).wf(),
            final(self).records(*old(self)),
            final(self)@ == old(self)@.applied(ActionView::RateBook(rating), at@),
    {
        match self.ensure_history_entry(false, at.stamp) {
            Some(id) => {
                let _ = self.db.set_history_rating(id, Some(rating));
                self.reload_current_history();
            },
            None => {},
        }
    }

    fn set_note(&mut self, note: &str, at: Moment)
        requires
            old(self).wf(),
        ensures
            final(self).wf(),
            final(self).records(*old(self)),
            final(self)@ == old(self)@.applied(ActionView::SetNote(note@), at@),
    {
        match self.ensure_history_entry(false, at.stamp) {
            Some(id) => {
                let _ = self.db.set_history_note(id, note);
                self.reload_current_history();
            },
            None => {},
        }
    }

    fn remove_from_history(&mut self, id: i64, at: Moment)
        requires
            old(self).wf(),
        ensures
            final(self).wf(),
            final(self).records(*old(self)),
            final(self)@ == old(self)@.applied(ActionView::RemoveHistory(id), at@),
    {
        let current = self.is_current_entry(id);
        let _ = self.db.remove_history(id);
        // If it was the loaded book's entry, forget it here too.
        if current {
            self.current_history = None;
            self.note_edit = String::new();
            assert(self.note_edit@ =~= Seq::empty());
        }
        self.refresh_history();
    }

    fn rate_history(&mut self, id: i64, rating: u8, at: Moment)
        requires
            old(self).wf(),
        ensures
            final(self).wf(),
            final(self).records(*old(self)),
            final(self)@ == old(self)@.applied(ActionView::RateHistory(id, rating), at@),
    {
        let current = self.is_current_entry(id);
        let _ = self.db.set_history_rating(id, Some(rating));
        if current {
            self.reload_current_history();
        }
        self.refresh_history();
    }

    fn add_book_to_history(&mut self, id: i64, at: Moment)
        requires
            old(self).wf(),
        ensures
            final(self).wf(),
            final(self).records(*old(self)),
            final(self)@ == old(self)@.applied(ActionView::AddBookToHistory(id), at@),
    {
        match self.book(id) {
            Some(book) => {
                self.keep_entry(&book, book.finished, true, at.stamp);
                // Keep the player's view of history in sync if it's loaded.
                let same = match self.current_book_id {
                    Some(c) => c == id,
                    None => false,
                };
                if same {
                    self.load_current_history(&book);
                }
                self.refresh_history();
                let mut said = "Added \u{201c}".to_owned();
                said.append(book.title.as_str());
                said.append("\u{201d} to My History.");
                self.toasts.success(said.as_str(), at.tick);
            },
            None => {},
        }
    }
}

// ---- scanning --------------------------------------------------------------

/// How many books were imported in all.
pub open spec fn imported_in_all(reports: Seq<ReportView>) -> int
    decreases reports.len(),
{
    if reports.len() == 0 {
        0
    } else {
        imported_in_all(reports.drop_last()) + reports.last().imported
    }
}

/// All failures, one report after the other.
pub open spec fn failed_in_all(reports: Seq<ReportView>) -> Seq<(Seq<char>, Seq<char>)>
    decreases reports.len(),
{
    if reports.len() == 0 {
        Seq::empty()
    } else {
        failed_in_all(reports.drop_last()) + reports.last().failed
    }
}

/// What is said after every storage location was scanned again.
pub open spec fn rescan_text(reports: Seq<ReportView>) -> Seq<char> {
    "Rescanned "@ + decimal(reports.len()) + " location(s): "@ + decimal(imported_in_all(reports) as nat) + " new, "@
        + decimal(failed_in_all(reports).len()) + " failed"@
}

impl PlayerView {
    /// The player after a folder was imported, with this report.
    pub open spec fn with_report(self, report: ReportView, tick: nat) -> PlayerView {
        PlayerView {
            toasts: self.toasts.push(ToastView { text: report.summary(), level: Level::Success, created: tick }),
            failures: report.failed,
            ..self
        }.with_books()
    }

    /// The player after every storage location was scanned again, with these
    /// reports.
    pub open spec fn with_reports(self, reports: Seq<ReportView>, tick: nat) -> PlayerView {
        PlayerView {
            toasts: self.toasts.push(ToastView { text: rescan_text(reports), level: Level::Info, created: tick }),
            failures: failed_in_all(reports),
            ..self
        }.with_books()
    }
}

proof fn imported_grows(reports: Seq<ReportView>, n: int)
    requires
        0 <= n <= reports.len(),
        forall|i: int| 0 <= i < reports.len() ==> (#[trigger] reports[i]).imported >= 0,
    ensures
        0 <= imported_in_all(reports.take(n)) <= imported_in_all(reports),
    decreases reports.len(),
{
    if n < reports.len() {
        let t = reports.drop_last();
        assert forall|i: int| 0 <= i < t.len() implies (#[trigger] t[i]).imported >= 0 by {
            assert(reports[i].imported >= 0);
        }
        imported_grows(t, n);
        assert(t.take(n) =~= reports.take(n));
        assert(reports[reports.len() - 1].imported >= 0);
    } else {
        assert(reports.take(n) =~= reports);
        if n > 0 {
            let t = reports.drop_last();
            assert forall|i: int| 0 <= i < t.len() implies (#[trigger] t[i]).imported >= 0 by {
                assert(reports[i].imported >= 0);
            }
            imported_grows(t, n - 1);
            assert(t.take(n - 1) =~= t);
            assert(reports[n - 1].imported >= 0);
        }
    }
}

fn copy_failures(out: &mut Vec<(String, String)>, failed: &Vec<(String, String)>)
    ensures
        views(final(out)@) == views(old(out)@) + views(failed@),
{
    let ghost before = views(out@);
    let ghost all = views(failed@);
    let mut i: usize = 0;
    assert(before + all.take(0) =~= before);
    while i < failed.len()
        invariant
            i <= failed.len(),
            all == views(failed@),
            views(out@) == before + all.take(i as int),
        decreases failed.len() - i,
    {
        let ghost now = views(out@);
        let entry = (failed[i].0.clone(), failed[i].1.clone());
        out.push(entry);
        proof {
            assert(views(out@) =~= now.push(entry@));
            assert(all.take(i + 1) =~= all.take(i as int).push(failed@[i as int]@));
            assert(views(out@) =~= before + all.take(i + 1));
        }
        i = i + 1;
    }
    assert(all.take(i as int) =~= all);
}

impl PlayerApp {
    /// A folder was imported: refresh the library, surfacing any failures.
    pub fn folder_added(&mut self, report: ImportReport, now: Duration)
        requires
            old(self).wf(),
        ensures
            final(self).wf(),
            final(self).records(*old(self)),
            final(self)@ == old(self)@.with_report(report@, now@),
    {
        let said = report.summary();
        self.toasts.success(said.as_str(), now);
        self.failures = report.failed;
        self.refresh_books();
    }

    /// Every registered storage location was scanned again, with these reports.
    pub fn rescanned(&mut self, reports: &Vec<ImportReport>, now: Duration)
        requires
            old(self).wf(),
            imported_in_all(views(reports@)) <= usize::MAX,
        ensures
            final(self).wf(),
            final(self).records(*old(self)),
            final(self)@ == old(self)@.with_reports(views(reports@), now@),
    {
        let ghost all = views(reports@);
        let mut imported: usize = 0;
        let mut failures: Vec<(String, String)> = Vec::new();
        let mut i: usize = 0;
        proof {
            assert(all.take(0) =~= Seq::empty());
            assert(views(failures@) =~= Seq::empty());
        }
        while i < reports.len()
            invariant
                i <= reports.len(),
                all == views(reports@),
                imported_in_all(all) <= usize::MAX,
                imported == imported_in_all(all.take(i as int)),
                views(failures@) == failed_in_all(all.take(i as int)),
            decreases reports.len() - i,
        {
            proof {
                assert forall|k: int| 0 <= k < all.len() implies (#[trigger] all[k]).imported >= 0 by {
                    assert(all[k] == reports@[k]@);
                }
                assert(all.take(i + 1).drop_last() =~= all.take(i as int));
                assert(all.take(i + 1).last() == reports@[i as int]@);
                imported_grows(all, i + 1);
            }
            imported = imported + reports[i].imported;
            copy_failures(&mut failures, &reports[i].failed);
            i = i + 1;
        }
        assert(all.take(i as int) =~= all);
        let mut said = "Rescanned ".to_owned();
        text::push_decimal(&mut said, reports.len() as u64);
        said.append(" location(s): ");
        text::push_decimal(&mut said, imported as u64);
        said.append(" new, ");
        text::push_decimal(&mut said, failures.len() as u64);
        said.append(" failed");
        proof {
            assert(views(failures@).len() == failures.len());
            assert(all.len() == reports.len());
            assert(said@ =~= rescan_text(all));
        }
        self.toasts.info(said.as_str(), now);
        self.failures = failures;
        self.refresh_books();
    }
}

} // verus!
