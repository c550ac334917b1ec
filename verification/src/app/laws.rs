//! What holds of the player from one action to the next.

use vstd::prelude::*;

use crate::app::actions::ActionView;
use crate::app::open::RESUME_REWIND_SECS;
use crate::app::progress::{is_finished, shutdown_due, SHUTDOWN_GRACE_SECS};
use crate::app::{since, MomentView, PlayerView, Screen};
use crate::audio::source::seek_is_seen;
use crate::library::db::moved_to;
use crate::library::laws::{entry_reads_back, position_reads_back};
use crate::library::tables::{change_book_keeps_valid, has_book};
use crate::library::{BookView, MetaView};
use crate::time::{MAX_NANOS, NANOS_PER_SEC};

verus! {

/// Opening the book that is loaded shows the player and interrupts nothing: the
/// engine goes on as it was.
pub proof fn opening_again_keeps_playing(p: PlayerView, id: i64)
    requires
        p.is_loaded(id),
    ensures
        p.opening(id).engine == p.engine,
        p.opening(id).screen == Screen::Player,
        p.opening(id).db == p.db,
        p.opening(id).sleep == p.sleep,
{
}

/// A book that is opened is paused where it was left off, a few seconds earlier:
/// no later than that, and within one frame of it. What was known of the sleep
/// timer is forgotten, and the library is as before.
pub proof fn book_resumes_a_little_earlier(p: PlayerView, book: BookView, meta: MetaView, rate: u32, at: MomentView)
    requires
        p.engine is Some,
        rate > 0,
        book.position * rate as nat / NANOS_PER_SEC as nat <= i64::MAX,
    ensures
        ({
            let resume = since(book.position, RESUME_REWIND_SECS as nat * NANOS_PER_SEC as nat);
            let after = p.opened(book, meta, rate, at);
            let e = after.engine->Some_0;
            &&& e.paused
            &&& e.position() <= resume
            &&& (resume - e.position()) * rate < NANOS_PER_SEC + rate
            &&& after.current_book_id == Some(book.id)
            &&& after.loaded() is Some
            &&& after.sleep is Off
            &&& after.db == p.db
        }),
{
    let resume = since(book.position, RESUME_REWIND_SECS as nat * NANOS_PER_SEC as nat);
    let loaded = p.engine->Some_0.loaded(book.path, meta, rate);
    let after = p.opened(book, meta, rate, at);
    crate::audio::loaded_book_waits(p.engine->Some_0, book.path, meta, rate);
    let e = after.engine->Some_0;
    if resume > 0 {
        assert(resume * rate as nat <= book.position * rate as nat) by (nonlinear_arith)
            requires
                resume <= book.position,
                rate >= 0,
        ;
        vstd::arithmetic::div_mod::lemma_div_is_ordered(
            (resume * rate as nat) as int,
            (book.position * rate as nat) as int,
            NANOS_PER_SEC as int,
        );
        seek_is_seen(loaded.controls->Some_0, resume);
        assert(e.position() == loaded.sought(resume).position());
    } else {
        assert(e.position() == loaded.position());
        assert((resume - e.position()) * rate == 0) by (nonlinear_arith)
            requires
                resume == 0,
                e.position() == 0,
        ;
    }
}

/// When the sleep timer runs out, playback pauses, the timer is off, and the
/// machine is to be shut down after the grace period if that was asked for.
pub proof fn sleep_timer_pauses(p: PlayerView, at: MomentView)
    requires
        p.sleep_fires(at.tick),
    ensures
        p.slept(at).sleep is Off,
        p.slept(at).engine is Some ==> p.slept(at).engine->Some_0.paused,
        p.shutdown_on_sleep && at.tick + SHUTDOWN_GRACE_SECS * NANOS_PER_SEC <= MAX_NANOS ==> p.slept(at).shutdown_at
            == Some((at.tick + SHUTDOWN_GRACE_SECS * NANOS_PER_SEC) as nat),
        !p.shutdown_on_sleep ==> p.slept(at).shutdown_at == p.shutdown_at,
{
}

/// A shutdown that the sleep timer asks for never comes before the ten seconds of
/// its countdown are over, and one that is not pending does not come.
pub proof fn shutdown_waits(p: PlayerView, at: MomentView, tick: nat)
    requires
        p.sleep_fires(at.tick),
        p.shutdown_on_sleep,
        at.tick + SHUTDOWN_GRACE_SECS * NANOS_PER_SEC <= MAX_NANOS,
    ensures
        shutdown_due(p.slept(at).shutdown_at, tick) is Now <==> tick >= at.tick + 10_000_000_000,
        shutdown_due(None, tick) is Idle,
{
}

/// Jumping to another place never trips an "end of chapter" sleep timer: it then
/// waits for the end of the chapter that was jumped to.
pub proof fn jump_does_not_end_a_chapter(p: PlayerView, tick: nat)
    requires
        p.jumped(),
        p.sleep is EndOfChapter,
    ensures
        !p.watched().sleep_fires(tick),
        p.watched().sleep is EndOfChapter,
{
}

/// While nothing jumps, looking at the position changes nothing about the sleep
/// timer.
pub proof fn smooth_playback_keeps_the_timer(p: PlayerView)
    requires
        !p.jumped(),
    ensures
        p.watched().sleep == p.sleep,
        p.watched().engine == p.engine,
        p.watched().db == p.db,
{
}

/// The position that is remembered is the one that is played, and reads back from
/// the library; a book near its end is marked finished.
pub proof fn saved_position_reads_back(p: PlayerView, at: MomentView)
    requires
        p.db.valid(),
        p.engine is Some,
        p.current_book_id is Some,
        has_book(p.db.books, p.current_book_id->Some_0),
    ensures
        ({
            let b = p.saved(at).db.book(p.current_book_id->Some_0);
            &&& b matches Some(b)
            &&& b.position == p.engine->Some_0.position()
            &&& b.finished == is_finished(p.engine->Some_0.position(), p.total())
            &&& b.last_played == Some(at.stamp)
        }),
{
    let id = p.current_book_id->Some_0;
    let pos = p.engine->Some_0.position();
    position_reads_back(p.db, id, pos, is_finished(pos, p.total()), at.stamp);
    let moved = p.db.change_book(id, moved_to(pos, is_finished(pos, p.total()), at.stamp));
    assert(p.saved(at).db.books == moved.books);
}

/// A book that is finished enters the history by itself, marked as finished; it
/// does so once, and later listening leaves the history alone.
pub proof fn finished_book_enters_history(p: PlayerView, at: MomentView)
    requires
        p.db.valid(),
        p.engine is Some,
        p.current_book_id is Some,
        has_book(p.db.books, p.current_book_id->Some_0),
        is_finished(p.engine->Some_0.position(), p.total()),
        p.db.can_put_entry(p.db.book(p.current_book_id->Some_0)->Some_0.path),
    ensures
        p.saved(at).history_pushed,
        !p.history_pushed ==> ({
            let e = p.saved(at).db.entry(p.db.book(p.current_book_id->Some_0)->Some_0.path);
            e is Some && e->Some_0.finished && e->Some_0.last_played == Some(at.stamp)
        }),
        p.history_pushed ==> p.saved(at).db.history == p.db.history,
{
    let id = p.current_book_id->Some_0;
    let pos = p.engine->Some_0.position();
    let f = moved_to(pos, true, at.stamp);
    let moved = p.db.change_book(id, f);
    position_reads_back(p.db, id, pos, true, at.stamp);
    change_book_keeps_valid(p.db, id, f);
    let book = moved.book(id)->Some_0;
    entry_reads_back(moved, book, true, false, at.stamp);
    assert(book.path == p.db.book(id)->Some_0.path);
}

/// Rating, noting, dating, adding and removing history entries never changes a
/// book, its tracks or its bookmarks.
pub proof fn history_actions_spare_the_library(p: PlayerView, action: ActionView, at: MomentView)
    requires
        action is RateBook || action is SetNote || action is AddToHistory || action is AddBookToHistory
            || action is RemoveHistory || action is RateHistory || action is SetHistoryNote || action is SetHistoryDate,
    ensures
        p.applied(action, at).db.books == p.db.books,
        p.applied(action, at).db.tracks == p.db.tracks,
        p.applied(action, at).db.bookmarks == p.db.bookmarks,
        p.applied(action, at).engine == p.engine,
{
}

/// A book that is added to the history by hand is there, marked as such, and the
/// listener is told.
pub proof fn book_added_by_hand_is_in_history(p: PlayerView, id: i64, at: MomentView)
    requires
        p.db.valid(),
        has_book(p.db.books, id),
        p.db.can_put_entry(p.db.book(id)->Some_0.path),
    ensures
        ({
            let after = p.applied(ActionView::AddBookToHistory(id), at);
            let e = after.db.entry(p.db.book(id)->Some_0.path);
            &&& e is Some && e->Some_0.added_manually
            &&& after.toasts.len() == p.toasts.len() + 1
        }),
{
    let book = p.db.book(id)->Some_0;
    entry_reads_back(p.db, book, book.finished, true, at.stamp);
}

/// Going back to the library remembers the position and leaves the book loaded
/// and playing.
pub proof fn going_back_keeps_playing(p: PlayerView, at: MomentView)
    ensures
        p.applied(ActionView::Back, at).engine == p.engine,
        p.applied(ActionView::Back, at).current_book_id == p.current_book_id,
        p.applied(ActionView::Back, at).db == p.saved(at).db,
        p.applied(ActionView::Back, at).screen == Screen::Library,
{
}

} // verus!
