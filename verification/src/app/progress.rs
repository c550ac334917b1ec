//! Where the listener stands: the history entry of the loaded book, remembering
//! the position, the sleep timer and the shutdown that may follow it.

use vstd::prelude::*;

use crate::app::{entry_kept, later, secs_later, since, Moment, MomentView, PlayerApp, PlayerView, Sleep, SleepView};
use crate::audio::EngineView;
use crate::icons;
use crate::library::db::moved_to;
use crate::library::view_of;
use crate::text::{decimal, zero_padded};
use crate::text;
use crate::time::{Duration, NANOS_PER_SEC};
use crate::toast::{Level, ToastView};

verus! {

broadcast use crate::library::db::group_records;

/// Grace period before the sleep-timer shutdown actually powers off.
pub const SHUTDOWN_GRACE_SECS: u64 = 10;

/// How often to persist the playback position while playing.
pub const SAVE_EVERY_SECS: u64 = 5;

/// How near to its end a book counts as finished.
pub const FINISHED_WITHIN_SECS: u64 = 30;

/// How far playback can get from one look to the next without a jump.
pub const JUMP_SECS: u64 = 2;

// ---- history of the loaded book --------------------------------------------

impl PlayerView {
    /// The player with a history entry for the loaded book.
    pub open spec fn with_entry(self, manual: bool, stamp: i64) -> PlayerView {
        if self.current_book_id is Some && self.db.book(self.current_book_id->Some_0) is Some
            && self.current_history is None {
            let book = self.db.book(self.current_book_id->Some_0)->Some_0;
            self.with_db(entry_kept(self.db, book, false, manual, stamp)).with_entry_of(book).with_history()
        } else {
            self
        }
    }

    /// The history entry of the loaded book, where the book is in the library.
    pub open spec fn entry_id(self) -> Option<i64> {
        if self.current_book_id is Some && self.db.book(self.current_book_id->Some_0) is Some {
            match self.current_history {
                Some(h) => Some(h.id),
                None => None,
            }
        } else {
            None
        }
    }

    /// The player with the loaded book's history entry read again, without
    /// touching what is being typed, and the history listed anew.
    pub open spec fn with_entry_reread(self) -> PlayerView {
        let reread = if self.current_book_id is Some && self.db.book(self.current_book_id->Some_0) is Some {
            let book = self.db.book(self.current_book_id->Some_0)->Some_0;
            PlayerView { current_history: self.db.entry(book.path), ..self }
        } else {
            self
        };
        reread.with_history()
    }

    /// Whether a history entry is the one of the loaded book.
    pub open spec fn is_current_entry(self, id: i64) -> bool {
        self.current_history is Some && self.current_history->Some_0.id == id
    }
}

impl PlayerApp {
    /// Ensure the loaded book has a history entry, then return its id.
    pub fn ensure_history_entry(&mut self, manual: bool, stamp: i64) -> (r: Option<i64>)
        requires
            old(self).wf(),
        ensures
            final(self).wf(),
            final(self).records(*old(self)),
            final(self)@ == old(self)@.with_entry(manual, stamp),
            r == final(self)@.entry_id(),
    {
        let id: i64 = match self.current_book_id {
            Some(id) => id,
            None => {
                return None;
            },
        };
        let book = match self.book(id) {
            Some(b) => b,
            None => {
                return None;
            },
        };
        if self.current_history.is_none() {
            self.keep_entry(&book, false, manual, stamp);
            self.load_current_history(&book);
            self.refresh_history();
        }
        match &self.current_history {
            Some(h) => Some(h.id),
            None => None,
        }
    }

    /// Re-read the loaded book's history entry (after a rating/note edit),
    /// keeping the note editor in sync, and refresh the history list.
    pub(crate) fn reload_current_history(&mut self)
        requires
            old(self).wf(),
        ensures
            final(self).wf(),
            final(self).records(*old(self)),
            final(self)@ == old(self)@.with_entry_reread(),
    {
        match self.current_book_id {
            Some(id) => match self.book(id) {
                Some(book) => {
                    // Don't clobber what the user is typing.
                    let typed = self.note_edit.clone();
                    self.load_current_history(&book);
                    self.note_edit = typed;
                },
                None => {},
            },
            None => {},
        }
        self.refresh_history();
    }

    pub(crate) fn is_current_entry(&self, id: i64) -> (r: bool)
        ensures
            r == self@.is_current_entry(id),
    {
        match &self.current_history {
            Some(h) => h.id == id,
            None => false,
        }
    }
}

// ---- progress and sleep ----------------------------------------------------

/// Whether a book that is this long counts as finished at a position.
pub open spec fn is_finished(pos: nat, total: nat) -> bool {
    total > 0 && pos + FINISHED_WITHIN_SECS * NANOS_PER_SEC >= total
}

/// Whether a book that is this long counts as finished at a position.
pub fn finished_at(pos: Duration, total: Duration) -> (r: bool)
    ensures
        r == is_finished(pos@, total@),
{
    let p: u128 = pos.as_nanos();
    let t: u128 = total.as_nanos();
    t > 0 && p + FINISHED_WITHIN_SECS as u128 * NANOS_PER_SEC >= t
}

impl PlayerView {
    /// How long the loaded book is.
    pub open spec fn total(self) -> nat {
        match self.loaded() {
            Some(b) => b.meta.length(),
            None => 0,
        }
    }

    /// The player after the playback position was remembered. A book that is
    /// finished goes into the history, once.
    pub open spec fn saved(self, at: MomentView) -> PlayerView {
        if self.engine is Some && self.current_book_id is Some {
            let id = self.current_book_id->Some_0;
            let pos = self.engine->Some_0.position();
            let finished = is_finished(pos, self.total());
            let db = self.db.change_book(id, moved_to(pos, finished, at.stamp));
            let push = finished && !self.history_pushed;
            PlayerView {
                db: if push && db.book(id) is Some {
                    entry_kept(db, db.book(id)->Some_0, true, false, at.stamp)
                } else {
                    db
                },
                history_pushed: self.history_pushed || push,
                last_save: at.tick,
                ..self
            }
        } else {
            self
        }
    }

    /// Whether the sleep timer has run out.
    pub open spec fn sleep_fires(self, tick: nat) -> bool {
        match self.sleep {
            SleepView::Off => false,
            SleepView::Until(t) => tick >= t,
            SleepView::EndOfChapter(ch) => self.chapter() is Some && self.chapter()->Some_0 > ch,
        }
    }

    /// The player after the sleep timer was looked at: where it has run out,
    /// playback pauses, the position is remembered, and the shutdown that was
    /// asked for is a grace period away.
    pub open spec fn slept(self, at: MomentView) -> PlayerView {
        if self.sleep_fires(at.tick) {
            let paused = PlayerView {
                engine: match self.engine {
                    Some(e) => Some(EngineView { paused: true, ..e }),
                    None => None,
                },
                ..self
            };
            PlayerView {
                sleep: SleepView::Off,
                shutdown_at: if self.shutdown_on_sleep {
                    Some(later(at.tick, SHUTDOWN_GRACE_SECS))
                } else {
                    self.shutdown_at
                },
                ..paused.saved(at)
            }
        } else {
            self
        }
    }

    /// Whether the position is not where smooth playback would have brought it.
    pub open spec fn jumped(self) -> bool {
        &&& self.loaded() is Some
        &&& self.last_pos is Some
        &&& {
            let pos = self.engine->Some_0.position();
            let prev = self.last_pos->Some_0;
            pos < prev || pos > prev + JUMP_SECS * NANOS_PER_SEC
        }
    }

    /// The player after the position was looked at: an "end of chapter" sleep
    /// timer follows a jump to the chapter that plays then.
    pub open spec fn watched(self) -> PlayerView {
        PlayerView {
            sleep: if self.jumped() && self.sleep is EndOfChapter && self.chapter() is Some {
                SleepView::EndOfChapter(self.chapter()->Some_0)
            } else {
                self.sleep
            },
            last_pos: if self.loaded() is Some {
                Some(self.engine->Some_0.position())
            } else {
                None
            },
            ..self
        }
    }

    /// The player after one look at the clock: while playing, the position is
    /// remembered from time to time and the sleep timer looked at.
    pub open spec fn ticked(self, at: MomentView) -> PlayerView {
        if self.is_playing() {
            let saved = if since(at.tick, self.last_save) >= SAVE_EVERY_SECS * NANOS_PER_SEC {
                self.saved(at)
            } else {
                self
            };
            saved.slept(at)
        } else {
            self
        }
    }
}

impl PlayerApp {
    /// Persist the current playback position.
    pub fn save_progress(&mut self, at: Moment)
        requires
            old(self).wf(),
        ensures
            final(self).wf(),
            final(self).records(*old(self)),
            final(self)@ == old(self)@.saved(at@),
    {
        let id: i64 = match self.current_book_id {
            Some(id) => id,
            None => {
                return;
            },
        };
        let pos: Duration;
        let total: Duration;
        match &self.engine {
            Some(e) => {
                pos = e.position();
                total = match e.current() {
                    Some(b) => b.meta.length(),
                    None => Duration::zero(),
                };
            },
            None => {
                return;
            },
        }
        let finished = finished_at(pos, total);
        let _ = self.db.update_position_at(id, pos, finished, at.stamp);
        // Auto-add finished books to My History (once), copying the cover so
        // the entry survives the files later being removed.
        if finished && !self.history_pushed {
            match self.book(id) {
                Some(book) => {
                    self.keep_entry(&book, true, false, at.stamp);
                },
                None => {},
            }
            self.history_pushed = true;
        }
        self.last_save = at.tick;
    }

    /// Pause playback if the sleep timer has elapsed.
    pub fn enforce_sleep(&mut self, at: Moment)
        requires
            old(self).wf(),
        ensures
            final(self).wf(),
            final(self).records(*old(self)),
            final(self)@ == old(self)@.slept(at@),
    {
        let fire = match self.sleep {
            Sleep::Off => false,
            Sleep::Until(t) => t.at_most(&at.tick),
            Sleep::EndOfChapter(ch) => match &self.engine {
                Some(e) => match e.current_chapter() {
                    Some(c) => c > ch,
                    None => false,
                },
                None => false,
            },
        };
        if fire {
            match self.engine.take() {
                Some(e) => {
                    let mut engine = e;
                    engine.pause();
                    self.engine = Some(engine);
                },
                None => {},
            }
            self.save_progress(at);
            self.sleep = Sleep::Off;
            if self.shutdown_on_sleep {
                // Start a grace period the user can cancel before we power off.
                self.shutdown_at = Some(secs_later(at.tick, SHUTDOWN_GRACE_SECS));
            }
        }
    }

    /// Watch for manual seeks / track changes (a discontinuous position jump) so
    /// an "end of chapter" sleep timer follows the new chapter instead of
    /// firing. Natural playback advances smoothly and never jumps.
    pub fn watch_position(&mut self)
        requires
            old(self).wf(),
        ensures
            final(self).wf(),
            final(self).records(*old(self)),
            final(self)@ == old(self)@.watched(),
    {
        let seen: Option<(Duration, Option<usize>)> = match &self.engine {
            Some(e) => if e.current().is_some() {
                Some((e.position(), e.current_chapter()))
            } else {
                None
            },
            None => None,
        };
        match seen {
            Some((pos, chapter)) => {
                match self.last_pos {
                    Some(prev) => {
                        let p: u128 = pos.as_nanos();
                        let q: u128 = prev.as_nanos();
                        let jumped = p < q || p > q + JUMP_SECS as u128 * NANOS_PER_SEC;
                        if jumped {
                            match (self.sleep, chapter) {
                                (Sleep::EndOfChapter(_), Some(cur)) => {
                                    self.sleep = Sleep::EndOfChapter(cur);
                                },
                                _ => {},
                            }
                        }
                    },
                    None => {},
                }
                self.last_pos = Some(pos);
            },
            None => {
                self.last_pos = None;
            },
        }
    }

    /// Periodically persist progress and look at the sleep timer while playing.
    /// Tells whether a book is playing.
    pub fn tick(&mut self, at: Moment) -> (playing: bool)
        requires
            old(self).wf(),
        ensures
            final(self).wf(),
            final(self).records(*old(self)),
            final(self)@ == old(self)@.ticked(at@),
            playing == old(self)@.is_playing(),
    {
        let playing = self.is_playing();
        if playing {
            let waited = at.tick.saturating_sub(&self.last_save);
            if Duration::from_secs(SAVE_EVERY_SECS).at_most(&waited) {
                self.save_progress(at);
            }
            self.enforce_sleep(at);
        }
        playing
    }
}

// ---- the sleep timer's words and the shutdown -------------------------------

/// A sleep timer that runs out after some minutes.
pub fn sleep_in(now: Duration, mins: u32) -> (r: Sleep)
    ensures
        r@ == SleepView::Until(later(now@, (mins * 60) as u64)),
{
    Sleep::Until(secs_later(now, mins as u64 * 60))
}

/// The minutes that a sleep timer is offered for.
pub fn sleep_choices() -> (r: Vec<u32>)
    ensures
        r@ == seq![10u32, 15, 30, 45, 60],
{
    let r: Vec<u32> = vec![10, 15, 30, 45, 60];
    assert(r@ =~= seq![10u32, 15, 30, 45, 60]);
    r
}

/// A sleep timer that runs out at the end of the chapter that plays. There is
/// none where no chapter plays.
pub fn at_chapter_end(chapter: Option<usize>) -> (r: Option<Sleep>)
    ensures
        view_of(r) == match chapter {
            Some(c) => Some(SleepView::EndOfChapter(c)),
            None => None,
        },
{
    match chapter {
        Some(c) => Some(Sleep::EndOfChapter(c)),
        None => None,
    }
}

/// What is shown of a sleep timer: the minutes and seconds that are left.
pub open spec fn sleep_text(sleep: SleepView, tick: nat) -> Seq<char> {
    match sleep {
        SleepView::Off => "Off"@,
        SleepView::Until(t) => {
            let left = since(t, tick) / NANOS_PER_SEC as nat;
            icons::CLOCK@ + " "@ + decimal(left / 60) + ":"@ + zero_padded((left % 60) as int, 2)
        },
        SleepView::EndOfChapter(_) => "End of chapter"@,
    }
}

/// What is shown of a sleep timer.
pub fn sleep_label(sleep: Sleep, now: Duration) -> (r: String)
    ensures
        r@ == sleep_text(sleep@, now@),
{
    match sleep {
        Sleep::Off => "Off".to_owned(),
        Sleep::Until(t) => {
            let left: u64 = t.saturating_sub(&now).as_secs();
            let mut out = icons::CLOCK.to_owned();
            out.append(" ");
            text::push_decimal(&mut out, left / 60);
            out.append(":");
            text::push_zero_padded(&mut out, (left % 60) as i64, 2);
            assert(out@ =~= sleep_text(sleep@, now@));
            out
        },
        Sleep::EndOfChapter(_) => "End of chapter".to_owned(),
    }
}

/// What is said when a sleep timer is set.
pub open spec fn sleep_status_text(sleep: SleepView, tick: nat) -> Seq<char> {
    match sleep {
        SleepView::Off => "Sleep timer off."@,
        SleepView::Until(t) => "Sleep in "@ + decimal(since(t, tick) / NANOS_PER_SEC as nat / 60 + 1) + " min."@,
        SleepView::EndOfChapter(_) => "Sleep at end of chapter."@,
    }
}

pub(crate) fn sleep_status(sleep: Sleep, now: Duration) -> (r: String)
    ensures
        r@ == sleep_status_text(sleep@, now@),
{
    match sleep {
        Sleep::Off => "Sleep timer off.".to_owned(),
        Sleep::Until(t) => {
            let left: u64 = t.saturating_sub(&now).as_secs();
            let mut out = "Sleep in ".to_owned();
            text::push_decimal(&mut out, left / 60 + 1);
            out.append(" min.");
            out
        },
        Sleep::EndOfChapter(_) => "Sleep at end of chapter.".to_owned(),
    }
}

/// What is to be done about a pending shutdown.
#[derive(Debug, Clone, Copy, PartialEq, Eq, Structural)]
pub enum Shutdown {
    /// None is pending.
    Idle,
    /// Show that it comes in this many seconds.
    Countdown(u128),
    /// Power off.
    Now,
}

/// What is to be done about a pending shutdown.
pub open spec fn shutdown_due(at: Option<nat>, tick: nat) -> Shutdown {
    match at {
        None => Shutdown::Idle,
        Some(t) => if tick >= t {
            Shutdown::Now
        } else {
            Shutdown::Countdown((since(t, tick) / NANOS_PER_SEC as nat + 1) as u128)
        },
    }
}

impl PlayerApp {
    /// While a shutdown is pending, count down; once the grace period elapses it
    /// is due, and no longer pending.
    pub fn shutdown_step(&mut self, now: Duration) -> (r: Shutdown)
        requires
            old(self).wf(),
        ensures
            final(self).wf(),
            final(self).records(*old(self)),
            r == shutdown_due(old(self)@.shutdown_at, now@),
            final(self)@ == if r is Now {
                PlayerView { shutdown_at: None, ..old(self)@ }
            } else {
                old(self)@
            },
    {
        match self.shutdown_at {
            None => Shutdown::Idle,
            Some(t) => {
                if t.at_most(&now) {
                    self.shutdown_at = None;
                    Shutdown::Now
                } else {
                    let left: u64 = t.saturating_sub(&now).as_secs();
                    Shutdown::Countdown(left as u128 + 1)
                }
            },
        }
    }

    /// Do not shut down after all.
    pub fn cancel_shutdown(&mut self, now: Duration)
        requires
            old(self).wf(),
        ensures
            final(self).wf(),
            final(self).records(*old(self)),
            final(self)@ == (PlayerView {
                shutdown_at: None,
                toasts: old(self)@.toasts.push(
                    ToastView { text: "Shutdown cancelled."@, level: Level::Info, created: now@ },
                ),
                ..old(self)@
            }),
    {
        self.shutdown_at = None;
        self.toasts.info("Shutdown cancelled.", now);
    }

    /// The machine refused to shut down, or could not be asked.
    pub fn shutdown_failed(&mut self, refused: Option<&str>, error: &str, now: Duration)
        requires
            old(self).wf(),
        ensures
            final(self).wf(),
            final(self).records(*old(self)),
            final(self)@ == (PlayerView {
                toasts: old(self)@.toasts.push(
                    ToastView {
                        text: match refused {
                            Some(exit) => "Shutdown was refused (systemctl exited "@ + exit@ + ")."@,
                            None => "Couldn't run shutdown: "@ + error@,
                        },
                        level: Level::Error,
                        created: now@,
                    },
                ),
                ..old(self)@
            }),
    {
        let mut out: String;
        match refused {
            Some(exit) => {
                out = "Shutdown was refused (systemctl exited ".to_owned();
                out.append(exit);
                out.append(").");
            },
            None => {
                out = "Couldn't run shutdown: ".to_owned();
                out.append(error);
            },
        }
        self.toasts.error(out.as_str(), now);
    }
}

} // verus!
