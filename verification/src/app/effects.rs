//! What each action of the listener, each command of the desktop and each choice
//! in the library changes, and what it leaves alone.

use vstd::prelude::*;

use crate::app::actions::{failed_in_all, imported_in_all, ActionView, Request};
use crate::app::open::{chapters_of, files_of, multi_meta, tracks_of};
use crate::app::timing::{follow_each_other, in_chapter};
use crate::app::{MomentView, PlayerView, Screen, SleepView};
use crate::audio::source::seek_is_seen;
use crate::audio::{chapter_sought, EngineError, EngineView};
use crate::browse::{is_visible, keys_read_back, needle_of, Category, LibView};
use crate::library::imported::{file_becomes_a_book, folder_becomes_a_book, has_room, is_new, readable_parts};
use crate::library::listed::{bookmarks_by_position, every_book_is_listed, listed_books, tracks_by_number};
use crate::library::meta::chapter_holds_position;
use crate::library::rows::only_that_bookmark_changes;
use crate::library::scan::{multi_imported, PartView, ReportView};
use crate::library::tables::{
    filter_from, filter_pairs, has_book, has_path, place_of_book, put_book_keeps_valid, put_bookmark_keeps_valid, DatabaseView, Sort,
};
use crate::library::{views, BookView, BookmarkView, CoverView, MetaView};
use crate::mpris::{MprisCommand, UpdateView};
use crate::text::decimal;
use crate::toast::Level;

verus! {

// ---- where playback stands -------------------------------------------------

/// Whether a position can be reached: its frame has a number.
pub open spec fn reachable(e: EngineView, pos: nat) -> bool {
    &&& e.controls is Some
    &&& e.controls->Some_0.input_rate > 0
    &&& pos * e.controls->Some_0.input_rate as nat / 1_000_000_000 <= i64::MAX
}

/// Whether the engine stands at a position, to within one frame: no later, and
/// less than a frame and a nanosecond earlier.
pub open spec fn stands_at(e: EngineView, pos: nat) -> bool {
    &&& e.controls is Some
    &&& e.position() <= pos
    &&& (pos - e.position()) * e.controls->Some_0.input_rate < 1_000_000_000 + e.controls->Some_0.input_rate
}

/// Whether only the position of an engine is another.
pub open spec fn moved_alone(before: EngineView, after: EngineView) -> bool {
    &&& after.current == before.current
    &&& after.paused == before.paused
    &&& after.speed_bits == before.speed_bits
    &&& after.loads == before.loads
    &&& after.controls is Some == before.controls is Some
    &&& before.controls is Some ==> after.controls->Some_0.input_rate == before.controls->Some_0.input_rate
        && after.controls->Some_0.speed_bits == before.controls->Some_0.speed_bits
}

proof fn seek_arrives(e: EngineView, pos: nat)
    requires
        reachable(e, pos),
    ensures
        stands_at(e.sought(pos), pos),
        moved_alone(e, e.sought(pos)),
{
    seek_is_seen(e.controls->Some_0, pos);
}

/// A book that is opened stands eight seconds before where it was left off, or at
/// its beginning where it was left off earlier than that.
pub proof fn book_resumes_eight_seconds_earlier(p: PlayerView, book: BookView, meta: MetaView, rate: u32, at: MomentView)
    requires
        p.engine is Some,
        rate > 0,
        book.position * rate as nat / 1_000_000_000 <= i64::MAX,
    ensures
        ({
            let e = p.opened(book, meta, rate, at).engine->Some_0;
            &&& p.opened(book, meta, rate, at).engine is Some
            &&& book.position > 8_000_000_000 ==> stands_at(e, (book.position - 8_000_000_000) as nat)
            &&& book.position <= 8_000_000_000 ==> e.position() == 0
        }),
{
    crate::app::laws::book_resumes_a_little_earlier(p, book, meta, rate, at);
}

/// Jumping to a position brings playback there, and changes nothing else.
pub proof fn jump_arrives(p: PlayerView, pos: nat, at: MomentView)
    requires
        p.engine is Some,
        reachable(p.engine->Some_0, pos),
    ensures
        ({
            let after = p.applied(ActionView::JumpTo(pos), at);
            &&& after.engine is Some
            &&& stands_at(after.engine->Some_0, pos)
            &&& moved_alone(p.engine->Some_0, after.engine->Some_0)
            &&& after == (PlayerView { engine: after.engine, ..p })
        }),
{
    seek_arrives(p.engine->Some_0, pos);
}

/// From a chapter, the desktop's "next" goes to where the next chapter starts and
/// "previous" to where the one before it starts; in the last chapter "next" does
/// nothing, and in the first "previous" goes to its own start.
pub proof fn chapters_are_skipped(p: PlayerView, i: int)
    requires
        p.engine is Some,
        p.loaded() is Some,
        follow_each_other(p.loaded()->Some_0.meta.chapters),
        in_chapter(p.loaded()->Some_0.meta.chapters, p.engine->Some_0.position(), i),
        forall|k: int|
            0 <= k < p.loaded()->Some_0.meta.chapters.len() ==> reachable(
                p.engine->Some_0,
                (#[trigger] p.loaded()->Some_0.meta.chapters[k]).start,
            ),
    ensures
        ({
            let chapters = p.loaded()->Some_0.meta.chapters;
            let e = p.engine->Some_0;
            let next = p.commanded(MprisCommand::Next);
            let prev = p.commanded(MprisCommand::Prev);
            &&& i + 1 < chapters.len() ==> next.engine is Some && stands_at(next.engine->Some_0, chapters[i + 1].start)
                && moved_alone(e, next.engine->Some_0)
            &&& i + 1 == chapters.len() ==> next.engine == p.engine
            &&& i > 0 ==> prev.engine is Some && stands_at(prev.engine->Some_0, chapters[i - 1].start)
            &&& i == 0 ==> prev.engine is Some && stands_at(prev.engine->Some_0, chapters[0].start)
            &&& prev.engine is Some && moved_alone(e, prev.engine->Some_0)
            &&& next == (PlayerView { engine: next.engine, ..p })
            &&& prev == (PlayerView { engine: prev.engine, ..p })
        }),
{
    let chapters = p.loaded()->Some_0.meta.chapters;
    let e = p.engine->Some_0;
    chapter_holds_position(chapters, e.position(), i);
    if i + 1 < chapters.len() {
        assert(reachable(e, chapters[i + 1].start));
        seek_arrives(e, chapters[i + 1].start);
    }
    if i > 0 {
        assert(reachable(e, chapters[i - 1].start));
        seek_arrives(e, chapters[i - 1].start);
    } else {
        assert(reachable(e, chapters[0].start));
        seek_arrives(e, chapters[0].start);
    }
}

/// Before the first chapter has begun, "next" goes to the second chapter and
/// "previous" to the first.
pub proof fn chapters_are_skipped_before_the_first(p: PlayerView)
    requires
        p.engine is Some,
        p.loaded() is Some,
        p.loaded()->Some_0.meta.chapters.len() >= 2,
        forall|k: int|
            0 <= k < p.loaded()->Some_0.meta.chapters.len() ==> p.engine->Some_0.position() < (
            #[trigger] p.loaded()->Some_0.meta.chapters[k]).start,
        reachable(p.engine->Some_0, p.loaded()->Some_0.meta.chapters[0].start),
        reachable(p.engine->Some_0, p.loaded()->Some_0.meta.chapters[1].start),
    ensures
        ({
            let chapters = p.loaded()->Some_0.meta.chapters;
            let next = p.commanded(MprisCommand::Next);
            let prev = p.commanded(MprisCommand::Prev);
            &&& next.engine is Some && stands_at(next.engine->Some_0, chapters[1].start)
            &&& prev.engine is Some && stands_at(prev.engine->Some_0, chapters[0].start)
        }),
{
    let chapters = p.loaded()->Some_0.meta.chapters;
    let e = p.engine->Some_0;
    crate::app::timing::chapter_is_the_last_begun(chapters, e.position());
    seek_arrives(e, chapters[0].start);
    seek_arrives(e, chapters[1].start);
}

/// Going to a chapter of the loaded book brings playback to its start; where there
/// is no book, or it has no such chapter, that is the error and nothing moves.
pub proof fn chapter_is_gone_to(before: EngineView, index: int, after: EngineView, r: Result<(), EngineError>)
    requires
        chapter_sought(before, index, after, r),
        index >= 0,
    ensures
        before.current is None ==> r == Err::<(), EngineError>(EngineError::NoBook) && after == before,
        before.current matches Some(b) ==> {
            &&& index >= b.meta.chapters.len() ==> r == Err::<(), EngineError>(EngineError::NoSuchChapter) && after == before
            &&& index < b.meta.chapters.len() ==> r is Ok && moved_alone(before, after)
            &&& index < b.meta.chapters.len() && reachable(before, b.meta.chapters[index].start) ==> stands_at(
                after,
                b.meta.chapters[index].start,
            )
        },
{
    if before.current is Some {
        let chapters = before.current->Some_0.meta.chapters;
        if index < chapters.len() && reachable(before, chapters[index].start) {
            seek_arrives(before, chapters[index].start);
        }
    }
}

/// The desktop's relative seek goes that many seconds on or back, but not before
/// the beginning; its absolute seek goes to that second, or to the beginning where
/// it is negative.
pub proof fn desktop_seeks(p: PlayerView, secs: i64)
    requires
        p.engine is Some,
    ensures
        ({
            let e = p.engine->Some_0;
            let by = p.commanded(MprisCommand::SeekBy(secs));
            let to = p.commanded(MprisCommand::SeekTo(secs));
            let there = e.position() + secs * 1_000_000_000;
            &&& 0 <= there <= 18_446_744_073_709_551_615_999_999_999 && reachable(e, there as nat) ==> stands_at(
                by.engine->Some_0,
                there as nat,
            )
            &&& there < 0 && reachable(e, 0) ==> stands_at(by.engine->Some_0, 0)
            &&& secs >= 0 && reachable(e, (secs * 1_000_000_000) as nat) ==> stands_at(
                to.engine->Some_0,
                (secs * 1_000_000_000) as nat,
            )
            &&& secs < 0 && reachable(e, 0) ==> stands_at(to.engine->Some_0, 0)
            &&& by.engine is Some && moved_alone(e, by.engine->Some_0)
            &&& to.engine is Some && moved_alone(e, to.engine->Some_0)
            &&& by == (PlayerView { engine: by.engine, ..p })
            &&& to == (PlayerView { engine: to.engine, ..p })
        }),
{
    let e = p.engine->Some_0;
    let there = e.position() + secs * 1_000_000_000;
    if 0 <= there <= 18_446_744_073_709_551_615_999_999_999 && reachable(e, there as nat) {
        seek_arrives(e, there as nat);
    }
    if reachable(e, 0) {
        seek_arrives(e, 0);
    }
    if secs >= 0 && reachable(e, (secs * 1_000_000_000) as nat) {
        seek_arrives(e, (secs * 1_000_000_000) as nat);
    }
}

/// The desktop's "play" plays, "pause" and "stop" pause, and "play or pause" does
/// the one or the other; none of them moves anything. Asking for the window
/// changes nothing, and without an engine nothing does.
pub proof fn desktop_plays_and_pauses(p: PlayerView, command: MprisCommand)
    ensures
        p.engine is None ==> p.commanded(command) == p,
        p.commanded(MprisCommand::Raise) == p,
        p.engine matches Some(e) ==> {
            let play = p.commanded(MprisCommand::Play);
            let pause = p.commanded(MprisCommand::Pause);
            let stop = p.commanded(MprisCommand::Stop);
            let toggle = p.commanded(MprisCommand::PlayPause);
            &&& play == (PlayerView { engine: Some(EngineView { paused: false, ..e }), ..p })
            &&& pause == (PlayerView { engine: Some(EngineView { paused: true, ..e }), ..p })
            &&& stop == pause
            &&& e.paused ==> toggle == play
            &&& !e.paused ==> toggle == pause
            &&& toggle.commanded(MprisCommand::PlayPause) == p
            &&& p.loaded() is Some ==> play.is_playing() && !pause.is_playing()
        },
{
}

/// The desktop is told whether a book plays when that is not what it was told
/// last, and then where it stands if it plays and a second has passed since that
/// was told; and nothing else.
pub proof fn desktop_is_told(p: PlayerView, tick: nat)
    ensures
        ({
            let playing = p.engine is Some && p.engine->Some_0.current is Some && !p.engine->Some_0.paused;
            let status = p.last_mpris_playing is None || p.last_mpris_playing->Some_0 != playing;
            let position = playing && tick >= p.last_pos_push + 1_000_000_000;
            let n = p.news(tick);
            &&& n.len() == (if status { 1int } else { 0 }) + (if position { 1int } else { 0 })
            &&& status ==> n[0] == (UpdateView::Status { playing })
            &&& position ==> n.last() == UpdateView::Position(p.engine->Some_0.position())
        }),
{
}

/// Once told, the desktop is told nothing more at that time; and where it stands is
/// told again a second after it was, if the book still plays, and not before.
pub proof fn desktop_is_told_once(p: PlayerView, tick: nat, next: nat)
    ensures
        p.told(tick).news(tick).len() == 0,
        p.is_playing() && tick >= p.last_pos_push + 1_000_000_000 ==> {
            &&& tick <= next < tick + 1_000_000_000 ==> p.told(tick).news(next).len() == 0
            &&& next >= tick + 1_000_000_000 ==> p.told(tick).news(next) == seq![
                UpdateView::Position(p.engine->Some_0.position()),
            ]
        },
        p.told(tick) == (PlayerView {
            last_mpris_playing: p.told(tick).last_mpris_playing,
            last_pos_push: p.told(tick).last_pos_push,
            ..p
        }),
{
    if p.is_playing() && tick >= p.last_pos_push + 1_000_000_000 && next >= tick + 1_000_000_000 {
        assert(p.told(tick).news(next) =~= seq![UpdateView::Position(p.engine->Some_0.position())]);
    }
}

// ---- what actions leave alone ----------------------------------------------

/// Whether an action left alone what is not its own. Nothing but a jump moves
/// playback, and no action starts or stops it; no action changes what is searched
/// for, the category, the names chosen, the layout, the current book, a shutdown,
/// the settings or the tracks; and every other thing is changed only by the
/// actions that are for it.
pub open spec fn keeps_to_its_own(p: PlayerView, action: ActionView, after: PlayerView) -> bool {
    &&& !(action is JumpTo) ==> after.engine == p.engine
    &&& after.search == p.search
    &&& after.category == p.category
    &&& after.selected_author == p.selected_author
    &&& after.selected_reader == p.selected_reader
    &&& after.lib_view == p.lib_view
    &&& after.current_book_id == p.current_book_id
    &&& after.shutdown_on_sleep == p.shutdown_on_sleep
    &&& after.shutdown_at == p.shutdown_at
    &&& after.last_pos == p.last_pos
    &&& !(action is SetSort) ==> after.sort == p.sort
    &&& !(action is SetSleep) ==> after.sleep == p.sleep
    &&& !(action is Rescan) ==> after.failures == p.failures
    &&& !(action is AddBookmark || action is DeleteBookmark) ==> after.bookmarks == p.bookmarks && after.db.bookmarks
        == p.db.bookmarks
    &&& !(action is Back || action is SetSort) ==> after.books == p.books
    &&& !(action is AddBookToHistory) ==> after.toasts == p.toasts
    &&& after.db.settings == p.db.settings
    &&& after.db.tracks == p.db.tracks
    &&& !(action is AddFolder) ==> after.db.locations == p.db.locations
    &&& !(action is Back) ==> after.db.books == p.db.books
}

proof fn ratings_keep_to_their_own(p: PlayerView, rating: u8, at: MomentView)
    ensures
        keeps_to_its_own(p, ActionView::RateBook(rating), p.applied(ActionView::RateBook(rating), at)),
{
}

proof fn notes_keep_to_their_own(p: PlayerView, note: Seq<char>, at: MomentView)
    ensures
        keeps_to_its_own(p, ActionView::SetNote(note), p.applied(ActionView::SetNote(note), at)),
{
}

proof fn adding_keeps_to_its_own(p: PlayerView, at: MomentView)
    ensures
        keeps_to_its_own(p, ActionView::AddToHistory, p.applied(ActionView::AddToHistory, at)),
{
}

proof fn adding_a_book_keeps_to_its_own(p: PlayerView, id: i64, at: MomentView)
    ensures
        keeps_to_its_own(p, ActionView::AddBookToHistory(id), p.applied(ActionView::AddBookToHistory(id), at)),
{
}

proof fn going_back_keeps_to_its_own(p: PlayerView, at: MomentView)
    ensures
        keeps_to_its_own(p, ActionView::Back, p.applied(ActionView::Back, at)),
{
}

proof fn removing_keeps_to_its_own(p: PlayerView, id: i64, at: MomentView)
    ensures
        keeps_to_its_own(p, ActionView::RemoveHistory(id), p.applied(ActionView::RemoveHistory(id), at)),
{
}

proof fn listed_ratings_keep_to_their_own(p: PlayerView, id: i64, rating: u8, at: MomentView)
    ensures
        keeps_to_its_own(p, ActionView::RateHistory(id, rating), p.applied(ActionView::RateHistory(id, rating), at)),
{
}

proof fn listed_notes_keep_to_their_own(p: PlayerView, id: i64, note: Seq<char>, at: MomentView)
    ensures
        keeps_to_its_own(p, ActionView::SetHistoryNote(id, note), p.applied(ActionView::SetHistoryNote(id, note), at)),
{
}

proof fn listed_dates_keep_to_their_own(p: PlayerView, id: i64, epoch: i64, at: MomentView)
    ensures
        keeps_to_its_own(p, ActionView::SetHistoryDate(id, epoch), p.applied(ActionView::SetHistoryDate(id, epoch), at)),
{
}

proof fn marking_keeps_to_its_own(p: PlayerView, at: MomentView)
    ensures
        keeps_to_its_own(p, ActionView::AddBookmark, p.applied(ActionView::AddBookmark, at)),
{
}

proof fn unmarking_keeps_to_its_own(p: PlayerView, id: i64, at: MomentView)
    ensures
        keeps_to_its_own(p, ActionView::DeleteBookmark(id), p.applied(ActionView::DeleteBookmark(id), at)),
{
}

proof fn folders_keep_to_their_own(p: PlayerView, folder: Seq<char>, at: MomentView)
    ensures
        keeps_to_its_own(p, ActionView::AddFolder(folder), p.applied(ActionView::AddFolder(folder), at)),
{
}

proof fn opening_keeps_to_its_own(p: PlayerView, id: i64, at: MomentView)
    ensures
        keeps_to_its_own(p, ActionView::OpenBook(id), p.applied(ActionView::OpenBook(id), at)),
{
}

proof fn showing_keeps_to_its_own(p: PlayerView, at: MomentView)
    ensures
        keeps_to_its_own(p, ActionView::ShowPlayer, p.applied(ActionView::ShowPlayer, at)),
{
}

proof fn scanning_keeps_to_its_own(p: PlayerView, at: MomentView)
    ensures
        keeps_to_its_own(p, ActionView::Rescan, p.applied(ActionView::Rescan, at)),
{
}

proof fn sorting_keeps_to_its_own(p: PlayerView, sort: Sort, at: MomentView)
    ensures
        keeps_to_its_own(p, ActionView::SetSort(sort), p.applied(ActionView::SetSort(sort), at)),
{
}

proof fn jumping_keeps_to_its_own(p: PlayerView, pos: nat, at: MomentView)
    ensures
        keeps_to_its_own(p, ActionView::JumpTo(pos), p.applied(ActionView::JumpTo(pos), at)),
{
}

proof fn sleeping_keeps_to_its_own(p: PlayerView, sleep: SleepView, at: MomentView)
    ensures
        keeps_to_its_own(p, ActionView::SetSleep(sleep), p.applied(ActionView::SetSleep(sleep), at)),
{
}

/// Every action keeps to its own.
pub proof fn actions_keep_to_their_own(p: PlayerView, action: ActionView, at: MomentView)
    ensures
        keeps_to_its_own(p, action, p.applied(action, at)),
{
    match action {
        ActionView::AddFolder(folder) => {
            folders_keep_to_their_own(p, folder, at);
        },
        ActionView::OpenBook(id) => {
            opening_keeps_to_its_own(p, id, at);
        },
        ActionView::ShowPlayer => {
            showing_keeps_to_its_own(p, at);
        },
        ActionView::Rescan => {
            scanning_keeps_to_its_own(p, at);
        },
        ActionView::Back => {
            going_back_keeps_to_its_own(p, at);
        },
        ActionView::SetSort(sort) => {
            sorting_keeps_to_its_own(p, sort, at);
        },
        ActionView::AddBookmark => {
            marking_keeps_to_its_own(p, at);
        },
        ActionView::JumpTo(pos) => {
            jumping_keeps_to_its_own(p, pos, at);
        },
        ActionView::DeleteBookmark(id) => {
            unmarking_keeps_to_its_own(p, id, at);
        },
        ActionView::SetSleep(sleep) => {
            sleeping_keeps_to_its_own(p, sleep, at);
        },
        ActionView::RateBook(rating) => {
            ratings_keep_to_their_own(p, rating, at);
        },
        ActionView::SetNote(note) => {
            notes_keep_to_their_own(p, note, at);
        },
        ActionView::AddToHistory => {
            adding_keeps_to_its_own(p, at);
        },
        ActionView::AddBookToHistory(id) => {
            adding_a_book_keeps_to_its_own(p, id, at);
        },
        ActionView::RemoveHistory(id) => {
            removing_keeps_to_its_own(p, id, at);
        },
        ActionView::RateHistory(id, rating) => {
            listed_ratings_keep_to_their_own(p, id, rating, at);
        },
        ActionView::SetHistoryNote(id, note) => {
            listed_notes_keep_to_their_own(p, id, note, at);
        },
        ActionView::SetHistoryDate(id, epoch) => {
            listed_dates_keep_to_their_own(p, id, epoch, at);
        },
    }
}

/// Adding a folder registers it as a storage location, besides those there are;
/// scanning anew forgets the failures; the player is shown if a book is loaded;
/// choosing a timer sets it.
pub proof fn simple_actions(p: PlayerView, folder: Seq<char>, sleep: SleepView, at: MomentView)
    ensures
        ({
            let added = p.applied(ActionView::AddFolder(folder), at);
            let scanned = p.applied(ActionView::Rescan, at);
            let shown = p.applied(ActionView::ShowPlayer, at);
            let timed = p.applied(ActionView::SetSleep(sleep), at);
            &&& forall|q: Seq<char>| #[trigger] added.db.locations.contains(q) <==> p.db.locations.contains(q) || q == folder
            &&& added.db == (DatabaseView { locations: added.db.locations, ..p.db })
            &&& added == (PlayerView { db: added.db, ..p })
            &&& scanned.failures.len() == 0
            &&& scanned == (PlayerView { failures: scanned.failures, ..p })
            &&& p.loaded() is Some ==> shown.screen == Screen::Player
            &&& p.loaded() is None ==> shown.screen == p.screen
            &&& shown == (PlayerView { screen: shown.screen, ..p })
            &&& timed.sleep == sleep
            &&& timed == (PlayerView { sleep, status: timed.status, ..p })
        }),
{
}

/// Choosing an order lists the books of the library in it; going back to the
/// library lists them with the position that is remembered then.
pub proof fn books_are_listed_anew(p: PlayerView, sort: Sort, at: MomentView)
    ensures
        ({
            let sorted = p.applied(ActionView::SetSort(sort), at);
            let back = p.applied(ActionView::Back, at);
            &&& sorted.sort == sort
            &&& sorted.books == listed_books(p.db, sort)
            &&& sorted == (PlayerView { sort, books: sorted.books, ..p })
            &&& back.screen == Screen::Library
            &&& back.db == p.saved(at).db
            &&& back.books == listed_books(back.db, p.sort)
            &&& back.history == p.history
        }),
{
}

/// Opening the book that is loaded shows the player; opening one that is gone says
/// so and changes nothing else; opening any other book changes nothing until it is
/// loaded.
pub proof fn opening_waits_for_the_book(p: PlayerView, id: i64, at: MomentView)
    ensures
        ({
            let after = p.applied(ActionView::OpenBook(id), at);
            let loaded = p.current_book_id == Some(id) && p.loaded() is Some;
            let stored = exists|k: int| 0 <= k < p.db.books.len() && (#[trigger] p.db.books[k]).book.id == id;
            &&& loaded ==> after.screen == Screen::Player && after.status.len() == 0
            &&& !loaded && !stored ==> after.screen == p.screen && after.status == "That book is no longer in the library."@
            &&& !loaded && stored ==> after == p
            &&& after == (PlayerView { screen: after.screen, status: after.status, ..p })
        }),
{
}

/// Adding a folder asks for that folder to be scanned, and scanning anew for every
/// storage location and no other folder; opening a book asks for it to be loaded,
/// unless it is loaded or gone; no other action asks for anything.
pub proof fn actions_ask_for_what_they_need(p: PlayerView, action: ActionView, r: Request)
    requires
        p.asks(action, r),
    ensures
        action matches ActionView::AddFolder(folder) ==> r is Scan && r->Scan_0@ == folder,
        action is Rescan ==> r is ScanAll && forall|q: Seq<char>|
            #[trigger] p.db.locations.contains(q) <==> exists|i: int|
                0 <= i < r->ScanAll_0@.len() && (#[trigger] r->ScanAll_0@[i])@ == q,
        action matches ActionView::OpenBook(id) ==> {
            let loaded = p.current_book_id == Some(id) && p.loaded() is Some;
            let stored = exists|k: int| 0 <= k < p.db.books.len() && (#[trigger] p.db.books[k]).book.id == id;
            &&& loaded || !stored ==> r is Nothing
            &&& !loaded && stored ==> r is Load && r->Load_0@.id == id && exists|k: int|
                0 <= k < p.db.books.len() && (#[trigger] p.db.books[k]).book == r->Load_0@
        },
        !(action is AddFolder || action is Rescan || action is OpenBook) ==> r is Nothing,
{
    if action is Rescan {
        let roots = r->ScanAll_0@;
        assert forall|q: Seq<char>| #[trigger] p.db.locations.contains(q) <==> exists|i: int|
            0 <= i < roots.len() && (#[trigger] roots[i])@ == q by {
            assert(views(roots).to_set().contains(q) == views(roots).contains(q));
            if views(roots).contains(q) {
                let i = choose|i: int| 0 <= i < views(roots).len() && views(roots)[i] == q;
                assert(roots[i]@ == q);
            }
            if exists|i: int| 0 <= i < roots.len() && (#[trigger] roots[i])@ == q {
                let i = choose|i: int| 0 <= i < roots.len() && (#[trigger] roots[i])@ == q;
                assert(views(roots)[i] == q);
            }
        }
    }
    if action is OpenBook {
        let id = action->OpenBook_0;
        if p.db.book(id) is Some {
            let k = place_of_book(p.db.books, id);
            assert(p.db.books[k].book.id == id);
        }
    }
}

// ---- bookmarks -------------------------------------------------------------

/// Setting a bookmark keeps where the loaded book stands, under the title of the
/// chapter in which that is; the bookmarks of the book are listed with it, and
/// those that were there stay.
pub proof fn bookmark_is_where_the_book_stands(p: PlayerView, b: int, i: int, at: MomentView)
    requires
        p.db.valid(),
        0 <= b < p.db.books.len(),
        p.current_book_id == Some(p.db.books[b].book.id),
        p.loaded() is Some,
        follow_each_other(p.loaded()->Some_0.meta.chapters),
        in_chapter(p.loaded()->Some_0.meta.chapters, p.engine->Some_0.position(), i),
        forall|k: int| 0 <= k < p.db.bookmarks.len() ==> (#[trigger] p.db.bookmarks[k]).id < i64::MAX,
    ensures
        ({
            let after = p.applied(ActionView::AddBookmark, at);
            let m = after.db.bookmarks.last();
            &&& after.db.bookmarks.len() == p.db.bookmarks.len() + 1
            &&& after.db.bookmarks.drop_last() == p.db.bookmarks
            &&& m.book_id == p.db.books[b].book.id
            &&& m.position == p.engine->Some_0.position()
            &&& m.label == p.loaded()->Some_0.meta.chapters[i].title
            &&& after.bookmarks.contains(m)
            &&& forall|k: int| 0 <= k < after.bookmarks.len() ==> (#[trigger] after.bookmarks[k]).book_id == m.book_id
            &&& after == (PlayerView { db: after.db, bookmarks: after.bookmarks, ..p })
        }),
{
    let id = p.db.books[b].book.id;
    let chapters = p.loaded()->Some_0.meta.chapters;
    let pos = p.engine->Some_0.position();
    chapter_holds_position(chapters, pos, i);
    assert(has_book(p.db.books, id));
    if p.db.bookmarks.len() > 0 {
        assert(p.db.bookmarks[p.db.bookmarks.len() - 1].id < i64::MAX);
    }
    assert(p.db.can_bookmark(id));
    only_that_bookmark_changes(p.db, id, pos, chapters[i].title, 0);
    put_bookmark_keeps_valid(p.db, id, pos, chapters[i].title);
    let after = p.applied(ActionView::AddBookmark, at);
    bookmarks_by_position(after.db, id);
    let n = after.db.bookmarks.len() - 1;
    assert(after.db.bookmarks[n].book_id == id);
}

/// Where the position is in no chapter, a bookmark has no title.
pub proof fn bookmark_without_a_chapter(p: PlayerView, b: int, at: MomentView)
    requires
        p.db.valid(),
        0 <= b < p.db.books.len(),
        p.current_book_id == Some(p.db.books[b].book.id),
        p.loaded() is Some,
        forall|k: int|
            0 <= k < p.loaded()->Some_0.meta.chapters.len() ==> p.engine->Some_0.position() < (
            #[trigger] p.loaded()->Some_0.meta.chapters[k]).start,
        forall|k: int| 0 <= k < p.db.bookmarks.len() ==> (#[trigger] p.db.bookmarks[k]).id < i64::MAX,
    ensures
        ({
            let after = p.applied(ActionView::AddBookmark, at);
            let m = after.db.bookmarks.last();
            &&& after.db.bookmarks.drop_last() == p.db.bookmarks
            &&& m.book_id == p.db.books[b].book.id
            &&& m.position == p.engine->Some_0.position()
            &&& m.label.len() == 0
        }),
{
    let id = p.db.books[b].book.id;
    let pos = p.engine->Some_0.position();
    assert(has_book(p.db.books, id));
    crate::app::timing::chapter_is_the_last_begun(p.loaded()->Some_0.meta.chapters, pos);
    if p.db.bookmarks.len() > 0 {
        assert(p.db.bookmarks[p.db.bookmarks.len() - 1].id < i64::MAX);
    }
    only_that_bookmark_changes(p.db, id, pos, Seq::empty(), 0);
}

/// Deleting a bookmark removes it and no other, and lists those of the current
/// book anew.
pub proof fn deleted_bookmark_is_gone(p: PlayerView, id: i64, at: MomentView, m: BookmarkView)
    requires
        p.db.valid(),
    ensures
        ({
            let after = p.applied(ActionView::DeleteBookmark(id), at);
            &&& after.db.bookmarks.contains(m) <==> p.db.bookmarks.contains(m) && m.id != id
            &&& p.current_book_id matches Some(book) ==> (after.bookmarks.contains(m) <==> p.db.bookmarks.contains(m) && m.id
                != id && m.book_id == book)
            &&& p.current_book_id is None ==> after.bookmarks == p.bookmarks
            &&& after == (PlayerView { db: after.db, bookmarks: after.bookmarks, ..p })
        }),
{
    let after = p.applied(ActionView::DeleteBookmark(id), at);
    let f = |b: BookmarkView| b.id != id;
    filter_from(p.db.bookmarks, f);
    let kept = p.db.bookmarks.filter(f);
    assert(kept.contains(m) <==> p.db.bookmarks.contains(m) && m.id != id) by {
        if kept.contains(m) {
            let k = choose|k: int| 0 <= k < kept.len() && kept[k] == m;
            assert(p.db.bookmarks.contains(kept[k]) && f(kept[k]));
        }
        if p.db.bookmarks.contains(m) && m.id != id {
            assert(f(m));
        }
    }
    crate::library::tables::without_bookmark_keeps_valid(p.db, id);
    if p.current_book_id is Some {
        let book = p.current_book_id->Some_0;
        bookmarks_by_position(after.db, book);
        if kept.contains(m) && m.book_id == book {
            let k = choose|k: int| 0 <= k < kept.len() && kept[k] == m;
            assert(after.db.bookmarks[k].book_id == book);
        }
        if after.bookmarks.contains(m) {
            let k = choose|k: int| 0 <= k < after.bookmarks.len() && after.bookmarks[k] == m;
            assert(after.bookmarks[k].book_id == book);
        }
    }
}

// ---- books of several files ------------------------------------------------

/// A book of several files is played as its tracks by number, each for its length;
/// its chapters are these tracks, with their titles and beginnings, and what else
/// is known of it is what the library says.
pub proof fn tracks_are_played_in_order(db: DatabaseView, book: BookView, i: int)
    requires
        db.valid(),
        0 <= i < tracks_of(db, book.id).len(),
    ensures
        ({
            let l = tracks_of(db, book.id);
            let files = files_of(l);
            let m = multi_meta(book, l);
            &&& files.len() == l.len() && m.chapters.len() == l.len()
            &&& files[i] == (l[i].path, l[i].duration)
            &&& m.chapters[i].index == l[i].idx
            &&& m.chapters[i].title == l[i].title
            &&& m.chapters[i].start == l[i].start
            &&& i > 0 ==> l[i - 1].idx < l[i].idx
            &&& exists|k: int| 0 <= k < db.tracks.len() && (#[trigger] db.tracks[k]).book_id == book.id && db.tracks[k].track == l[i]
            &&& m.title == Some(book.title)
            &&& m.author == book.author && m.reader == book.reader && m.cover == book.cover
            &&& m.duration == Some(book.duration)
        }),
{
    let l = tracks_of(db, book.id);
    tracks_by_number(db, book.id);
    let row = crate::library::tables::TrackRowView { book_id: book.id, track: l[i] };
    assert(db.tracks.contains(row));
    let k = choose|k: int| 0 <= k < db.tracks.len() && db.tracks[k] == row;
    assert(db.tracks[k].book_id == book.id && db.tracks[k].track == l[i]);
}

/// A folder that was just imported is played as its readable parts in order, each
/// a chapter that begins where the one before it ends.
pub proof fn imported_folder_plays_its_parts(
    db: DatabaseView,
    report: ReportView,
    dir: Seq<char>,
    header: Option<MetaView>,
    cover: Option<CoverView>,
    parts: Seq<PartView>,
    now: i64,
)
    requires
        db.valid(),
        is_new(db, dir),
        has_room(db),
        parts.len() <= usize::MAX,
        readable_parts(parts).len() > 0,
    ensures
        ({
            let after = multi_imported(db, report, dir, header, cover, parts, now).0;
            let book = after.books.last().book;
            let l = tracks_of(after, book.id);
            let good = readable_parts(parts);
            let chapters = multi_meta(book, l).chapters;
            &&& files_of(l).len() == good.len()
            &&& chapters.len() == good.len()
            &&& forall|i: int|
                0 <= i < good.len() ==> {
                    &&& #[trigger] files_of(l)[i] == (good[i].path, good[i].info->Ok_0.1)
                    &&& chapters[i].title == good[i].info->Ok_0.0
                    &&& chapters[i].index == i
                    &&& chapters[i].start == if i == 0 {
                        0
                    } else {
                        chapters[i - 1].start + good[i - 1].info->Ok_0.1
                    }
                }
        }),
{
    folder_becomes_a_book(db, report, dir, header, cover, parts, now);
    let after = multi_imported(db, report, dir, header, cover, parts, now).0;
    let book = after.books.last().book;
    let l = tracks_of(after, book.id);
    let good = readable_parts(parts);
    let chapters = multi_meta(book, l).chapters;
    assert forall|i: int| 0 <= i < good.len() implies {
        &&& #[trigger] files_of(l)[i] == (good[i].path, good[i].info->Ok_0.1)
        &&& chapters[i].title == good[i].info->Ok_0.0
        &&& chapters[i].index == i
        &&& chapters[i].start == if i == 0 {
            0
        } else {
            chapters[i - 1].start + good[i - 1].info->Ok_0.1
        }
    } by {
        assert(l[i].idx == i);
        if i > 0 {
            assert(l[i - 1].idx == i - 1);
        }
    }
}

// ---- after scanning --------------------------------------------------------

/// What several scans imported and what failed in them adds up: of no scan it is
/// nothing, of one what its report says, and of some and others that of both, one
/// after the other.
pub proof fn reports_add_up(a: Seq<ReportView>, b: Seq<ReportView>, one: ReportView)
    ensures
        imported_in_all(Seq::empty()) == 0 && failed_in_all(Seq::empty()).len() == 0,
        imported_in_all(seq![one]) == one.imported && failed_in_all(seq![one]) == one.failed,
        imported_in_all(a + b) == imported_in_all(a) + imported_in_all(b),
        failed_in_all(a + b) == failed_in_all(a) + failed_in_all(b),
    decreases b.len(),
{
    assert(seq![one].drop_last() =~= Seq::<ReportView>::empty());
    assert(failed_in_all(seq![one].drop_last()) =~= Seq::empty());
    assert(imported_in_all(seq![one].drop_last()) == 0);
    assert(failed_in_all(seq![one]) =~= one.failed);
    if b.len() == 0 {
        assert(a + b =~= a);
        assert(failed_in_all(a) + failed_in_all(b) =~= failed_in_all(a));
    } else {
        reports_add_up(a, b.drop_last(), one);
        assert((a + b).drop_last() =~= a + b.drop_last());
        assert(failed_in_all(a + b) =~= failed_in_all(a) + failed_in_all(b));
    }
}

/// After scanning, the books are listed anew, the failures of all reports are
/// shown, and the listener is told once: of one folder in the words of its report,
/// and otherwise of how many locations were scanned, how many books are new and how
/// many files failed.
pub proof fn scans_are_told(p: PlayerView, report: ReportView, reports: Seq<ReportView>, tick: nat)
    requires
        imported_in_all(reports) >= 0,
    ensures
        ({
            let one = p.with_report(report, tick);
            let all = p.with_reports(reports, tick);
            let t = all.toasts.last();
            &&& one.books == listed_books(p.db, p.sort) && all.books == listed_books(p.db, p.sort)
            &&& one.failures == report.failed
            &&& all.failures == failed_in_all(reports)
            &&& one.toasts.drop_last() == p.toasts && all.toasts.drop_last() == p.toasts
            &&& one.toasts.last().text == report.summary() && one.toasts.last().level == Level::Success
            &&& one.toasts.last().created == tick && t.created == tick
            &&& t.level == Level::Info
            &&& t.text == "Rescanned "@ + decimal(reports.len()) + " location(s): "@ + decimal(
                imported_in_all(reports) as nat,
            ) + " new, "@ + decimal(all.failures.len()) + " failed"@
            &&& one == (PlayerView { books: one.books, failures: one.failures, toasts: one.toasts, ..p })
            &&& all == (PlayerView { books: all.books, failures: all.failures, toasts: all.toasts, ..p })
        }),
{
    assert(p.with_report(report, tick).toasts.drop_last() =~= p.toasts);
    assert(p.with_reports(reports, tick).toasts.drop_last() =~= p.toasts);
}

/// A report says how many books were imported, then how many were there already
/// and how many files failed, each only if there are any.
pub proof fn report_is_summed_up(report: ReportView)
    requires
        report.imported >= 0,
        report.skipped_existing >= 0,
    ensures
        ({
            let head = decimal(report.imported as nat) + " imported"@;
            let known = ", "@ + decimal(report.skipped_existing as nat) + " already in library"@;
            let failed = ", "@ + decimal(report.failed.len()) + " failed"@;
            &&& report.skipped_existing == 0 && report.failed.len() == 0 ==> report.summary() == head
            &&& report.skipped_existing > 0 && report.failed.len() == 0 ==> report.summary() == head + known
            &&& report.skipped_existing == 0 && report.failed.len() > 0 ==> report.summary() == head + failed
            &&& report.skipped_existing > 0 && report.failed.len() > 0 ==> report.summary() == head + known + failed
        }),
{
    let head = decimal(report.imported as nat) + " imported"@;
    let known = ", "@ + decimal(report.skipped_existing as nat) + " already in library"@;
    let failed = ", "@ + decimal(report.failed.len()) + " failed"@;
    assert(head + Seq::empty() =~= head);
    assert((head + known) + Seq::empty() =~= head + known);
}

/// A file that is opened is in the library afterwards, as a book of its own if it
/// is new, and the books are listed with it.
pub proof fn opened_file_is_in_the_library(p: PlayerView, path: Seq<char>, meta: MetaView, stamp: i64)
    requires
        p.db.valid(),
        is_new(p.db, path),
        has_room(p.db),
        meta.chapters.len() <= usize::MAX,
    ensures
        ({
            let after = p.with_file(path, meta, stamp);
            let b = after.db.books.last().book;
            &&& after.db.books.drop_last() == p.db.books
            &&& b.path == path && b.title == meta.display_title() && b.author == meta.author
            &&& b.chapter_count == meta.chapters.len() && !b.is_multi && b.added_at == stamp && b.position == 0
            &&& after.books == listed_books(after.db, p.sort)
            &&& after.books.contains(b)
            &&& after == (PlayerView { db: after.db, books: after.books, ..p })
        }),
{
    let none = ReportView { imported: 0, skipped_existing: 0, failed: Seq::empty() };
    file_becomes_a_book(p.db, none, path, Ok(meta), stamp);
    let after = p.with_file(path, meta, stamp);
    if p.db.books.len() > 0 {
        assert(p.db.books[p.db.books.len() - 1].book.id < i64::MAX);
    }
    assert(!has_path(p.db.books, path));
    put_book_keeps_valid(p.db, path, meta, meta.chapters.len() as usize, false, stamp);
    every_book_is_listed(after.db, p.sort);
    let n = after.db.books.len() - 1;
    assert(after.books.contains(after.db.books[n].book));
}

// ---- the library window ----------------------------------------------------

/// A player that was just started lists the books of its library, the last played
/// first, and the history; nothing is loaded, chosen or pending; it shows the
/// layout and the category that the library remembers, icons and books where it
/// remembers none.
pub proof fn player_starts_with_its_library(db: DatabaseView, status: Seq<char>, tick: nat, v: LibView, c: Category)
    ensures
        ({
            let p = PlayerView::started(db, status, tick);
            &&& p.db == db
            &&& p.books == listed_books(db, Sort::RecentlyPlayed)
            &&& p.sort == Sort::RecentlyPlayed
            &&& p.history == p.with_history().history
            &&& p.engine is None && p.current_book_id is None && p.current_history is None
            &&& p.screen == Screen::Library
            &&& p.sleep is Off && !p.shutdown_on_sleep && p.shutdown_at is None
            &&& p.selected_author is None && p.selected_reader is None
            &&& p.search.len() == 0 && p.note_edit.len() == 0 && p.toasts.len() == 0 && p.failures.len() == 0
            &&& p.bookmarks.len() == 0
            &&& !p.history_pushed && p.last_pos is None && p.last_mpris_playing is None
            &&& p.last_save == tick && p.last_pos_push == tick
            &&& p.status == status
            &&& !db.settings.contains_key("lib_view"@) ==> p.lib_view == LibView::Icons
            &&& !db.settings.contains_key("category"@) ==> p.category == Category::Books
        }),
        ({
            let kept = DatabaseView { settings: db.settings.insert("lib_view"@, v.key()), ..db };
            PlayerView::started(kept, status, tick).lib_view == v
        }),
        ({
            let kept = DatabaseView { settings: db.settings.insert("category"@, c.key()), ..db };
            PlayerView::started(kept, status, tick).category == c
        }),
{
    keys_read_back(v, c);
}

/// Choosing a layout shows it and remembers it for the next start, with all other
/// settings as they were, and changes nothing else.
pub proof fn layout_is_remembered(p: PlayerView, v: LibView, status: Seq<char>, tick: nat, key: Seq<char>)
    ensures
        ({
            let after = p.in_layout(v);
            &&& after.lib_view == v
            &&& PlayerView::started(after.db, status, tick).lib_view == v
            &&& key != "lib_view"@ ==> (after.db.settings.contains_key(key) <==> p.db.settings.contains_key(key))
            &&& key != "lib_view"@ && p.db.settings.contains_key(key) ==> after.db.settings[key] == p.db.settings[key]
            &&& after.db == (DatabaseView { settings: after.db.settings, ..p.db })
            &&& after == (PlayerView { lib_view: v, db: after.db, ..p })
        }),
{
    keys_read_back(v, p.category);
}

/// Going to another category shows it, forgets the names that were chosen, and
/// remembers it for the next start, with all other settings as they were; going to
/// the one that is shown changes nothing.
pub proof fn category_is_remembered(p: PlayerView, c: Category, status: Seq<char>, tick: nat, key: Seq<char>)
    ensures
        ({
            let after = p.in_category(c);
            &&& after.category == c
            &&& c == p.category ==> after == p
            &&& c != p.category ==> {
                &&& after.selected_author is None && after.selected_reader is None
                &&& PlayerView::started(after.db, status, tick).category == c
                &&& key != "category"@ ==> (after.db.settings.contains_key(key) <==> p.db.settings.contains_key(key))
                &&& key != "category"@ && p.db.settings.contains_key(key) ==> after.db.settings[key] == p.db.settings[key]
            }
            &&& after.db.books == p.db.books && after.db.history == p.db.history && after.db.tracks == p.db.tracks
            &&& after.db.bookmarks == p.db.bookmarks && after.db.locations == p.db.locations
            &&& after.books == p.books && after.search == p.search && after.engine == p.engine
            &&& c == Category::History && c != p.category ==> after.history == after.with_history().history
            &&& c != Category::History ==> after.history == p.history
        }),
{
    keys_read_back(p.lib_view, c);
}

/// Clicking a name in the sidebar chooses it, clicking it again chooses none, and
/// so does clicking "all"; among the readers it is a reader that is chosen, and
/// otherwise an author, and the other choice stays.
pub proof fn names_are_chosen(p: PlayerView, name: Seq<char>)
    ensures
        ({
            let one = p.with_name(Some(name));
            let none = p.with_name(None);
            &&& p.category == Category::Readers ==> {
                &&& p.selected_reader != Some(name) ==> one.selected_reader == Some(name)
                &&& p.selected_reader == Some(name) ==> one.selected_reader is None
                &&& none.selected_reader is None
                &&& one == (PlayerView { selected_reader: one.selected_reader, ..p })
                &&& none == (PlayerView { selected_reader: None, ..p })
            }
            &&& p.category != Category::Readers ==> {
                &&& p.selected_author != Some(name) ==> one.selected_author == Some(name)
                &&& p.selected_author == Some(name) ==> one.selected_author is None
                &&& none.selected_author is None
                &&& one == (PlayerView { selected_author: one.selected_author, ..p })
                &&& none == (PlayerView { selected_author: None, ..p })
            }
        }),
{
}

/// The books that are shown are those of the list that pass, each once, in the
/// order of the list; without a search and without a name chosen all of them are.
pub proof fn shown_books_keep_their_order(p: PlayerView)
    ensures
        forall|k: int|
            0 <= k < p.visible().len() ==> 0 <= #[trigger] p.visible()[k] < p.books.len() && is_visible(
                p.books[p.visible()[k]],
                needle_of(p.search),
                p.selected_author,
                p.selected_reader,
            ),
        forall|i: int|
            0 <= i < p.books.len() && is_visible(
                #[trigger] p.books[i],
                needle_of(p.search),
                p.selected_author,
                p.selected_reader,
            ) ==> p.visible().contains(i),
        forall|k: int, l: int| 0 <= k < l < p.visible().len() ==> #[trigger] p.visible()[k] < #[trigger] p.visible()[l],
        needle_of(p.search).len() == 0 && p.selected_author is None && p.selected_reader is None ==> p.visible().len()
            == p.books.len(),
{
    let places = Seq::new(p.books.len(), |i: int| i);
    let f = |i: int| is_visible(p.books[i], needle_of(p.search), p.selected_author, p.selected_reader);
    filter_from(places, f);
    filter_pairs(places, f, |a: int, b: int| a < b);
    assert forall|k: int| 0 <= k < p.visible().len() implies 0 <= #[trigger] p.visible()[k] < p.books.len() && is_visible(
        p.books[p.visible()[k]],
        needle_of(p.search),
        p.selected_author,
        p.selected_reader,
    ) by {
        let v = places.filter(f)[k];
        assert(places.contains(v) && f(v));
    }
    assert forall|i: int|
        0 <= i < p.books.len() && is_visible(#[trigger] p.books[i], needle_of(p.search), p.selected_author, p.selected_reader)
        implies p.visible().contains(i) by {
        assert(places[i] == i);
        assert(f(i));
    }
    if needle_of(p.search).len() == 0 && p.selected_author is None && p.selected_reader is None {
        crate::library::tables::filter_all(places, f);
    }
}

} // verus!
