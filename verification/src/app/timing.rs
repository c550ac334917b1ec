//! The clock of the player: positions that jump, the sleep timer, the shutdown
//! that follows it, and how often the position is remembered.

use vstd::prelude::*;

use crate::app::entries::position_is_kept_in_the_loaded_book;
use crate::app::progress::{is_finished, shutdown_due, sleep_status_text, sleep_text, Shutdown};
use crate::app::{later, MomentView, PlayerView, SleepView};
use crate::icons;
use crate::library::meta::{chapter_holds_position, chapter_of};
use crate::library::rows::history_has_room;
use crate::library::ChapterView;
use crate::text::decimal;
use crate::writing::two_digits;

verus! {

/// Whether chapters are numbered from zero and follow each other in time.
pub open spec fn follow_each_other(chapters: Seq<ChapterView>) -> bool {
    &&& chapters.len() <= usize::MAX
    &&& forall|k: int| 0 <= k < chapters.len() ==> (#[trigger] chapters[k]).index == k
    &&& forall|j: int, k: int|
        0 <= j < k < chapters.len() ==> (#[trigger] chapters[j]).start <= (#[trigger] chapters[k]).start
}

/// Whether a position is in a chapter: that one has begun, and the next has not.
pub open spec fn in_chapter(chapters: Seq<ChapterView>, pos: nat, i: int) -> bool {
    &&& 0 <= i < chapters.len()
    &&& chapters[i].start <= pos
    &&& i + 1 < chapters.len() ==> pos < chapters[i + 1].start
}

/// The chapter at a position is the last of those that begin at or before it,
/// whatever the order of their beginnings; where none does, there is no chapter.
pub proof fn chapter_is_the_last_begun(chapters: Seq<ChapterView>, pos: nat)
    ensures
        chapter_of(chapters, pos) matches Some(c) ==> exists|i: int|
            0 <= i < chapters.len() && (#[trigger] chapters[i]).index == c && chapters[i].start <= pos && (forall|k: int|
                i < k < chapters.len() ==> pos < (#[trigger] chapters[k]).start),
        chapter_of(chapters, pos) is None ==> forall|k: int|
            0 <= k < chapters.len() ==> pos < (#[trigger] chapters[k]).start,
    decreases chapters.len(),
{
    if chapters.len() > 0 {
        let n = chapters.len() - 1;
        if chapters.last().start <= pos {
            assert(chapters[n].index == chapter_of(chapters, pos)->Some_0);
        } else {
            let t = chapters.drop_last();
            chapter_is_the_last_begun(t, pos);
            if chapter_of(t, pos) is Some {
                let c = chapter_of(t, pos)->Some_0;
                let i = choose|i: int|
                    0 <= i < t.len() && (#[trigger] t[i]).index == c && t[i].start <= pos && (forall|k: int|
                        i < k < t.len() ==> pos < (#[trigger] t[k]).start);
                assert forall|k: int| i < k < chapters.len() implies pos < (#[trigger] chapters[k]).start by {
                    if k < n {
                        assert(t[k] == chapters[k]);
                    }
                }
                assert(chapters[i] == t[i]);
            } else {
                assert forall|k: int| 0 <= k < chapters.len() implies pos < (#[trigger] chapters[k]).start by {
                    if k < n {
                        assert(t[k] == chapters[k]);
                    }
                }
            }
        }
    }
}

/// With an "end of chapter" timer and a position that was seen before: where the
/// position now is earlier than that one, or more than two seconds later, the
/// timer then waits for the end of the chapter in which the position is now;
/// otherwise it waits for what it waited for. Either way the position now is the
/// one that was seen, and nothing else changes.
pub proof fn timer_follows_a_jump(p: PlayerView, i: int)
    requires
        p.loaded() is Some,
        p.last_pos is Some,
        p.sleep is EndOfChapter,
        follow_each_other(p.loaded()->Some_0.meta.chapters),
        in_chapter(p.loaded()->Some_0.meta.chapters, p.engine->Some_0.position(), i),
    ensures
        ({
            let now = p.engine->Some_0.position();
            let seen = p.last_pos->Some_0;
            let after = p.watched();
            &&& now < seen ==> after.sleep == SleepView::EndOfChapter(i as usize)
            &&& now > seen + 2_000_000_000 ==> after.sleep == SleepView::EndOfChapter(i as usize)
            &&& seen <= now <= seen + 2_000_000_000 ==> after.sleep == p.sleep
            &&& after.last_pos == Some(now)
            &&& after == (PlayerView { sleep: after.sleep, last_pos: after.last_pos, ..p })
        }),
{
    chapter_holds_position(p.loaded()->Some_0.meta.chapters, p.engine->Some_0.position(), i);
}

/// A timer that is off, or set for a time, is not touched by looking at the
/// position, nor is one that was not preceded by another look; where nothing is
/// loaded, no position is seen.
pub proof fn other_timers_follow_no_jump(p: PlayerView)
    ensures
        !(p.sleep is EndOfChapter) ==> p.watched().sleep == p.sleep,
        p.last_pos is None ==> p.watched().sleep == p.sleep,
        p.loaded() is None ==> p.watched().sleep == p.sleep && p.watched().last_pos is None,
        p.loaded() is Some ==> p.watched().last_pos == Some(p.engine->Some_0.position()),
        p.watched() == (PlayerView { sleep: p.watched().sleep, last_pos: p.watched().last_pos, ..p }),
{
}

/// An "end of chapter" timer runs out when the position is in a later chapter than
/// the one it waits for, and not before.
pub proof fn timer_waits_for_the_chapter(p: PlayerView, i: int, at: MomentView)
    requires
        p.loaded() is Some,
        p.sleep is EndOfChapter,
        follow_each_other(p.loaded()->Some_0.meta.chapters),
        in_chapter(p.loaded()->Some_0.meta.chapters, p.engine->Some_0.position(), i),
    ensures
        i <= p.sleep->EndOfChapter_0 ==> p.slept(at) == p,
        i > p.sleep->EndOfChapter_0 ==> p.slept(at).sleep is Off && p.slept(at).engine->Some_0.paused,
{
    chapter_holds_position(p.loaded()->Some_0.meta.chapters, p.engine->Some_0.position(), i);
}

/// A timer that is set for a time runs out then and not before, and one that is
/// off never does.
pub proof fn timer_waits_for_its_time(p: PlayerView, at: MomentView)
    ensures
        p.sleep is Off ==> p.slept(at) == p,
        p.sleep is Until && at.tick < p.sleep->Until_0 ==> p.slept(at) == p,
        p.sleep is Until && at.tick >= p.sleep->Until_0 ==> {
            &&& p.slept(at).sleep is Off
            &&& p.engine is Some ==> p.slept(at).engine is Some && p.slept(at).engine->Some_0.paused
                && p.slept(at).engine->Some_0.position() == p.engine->Some_0.position()
                && p.slept(at).engine->Some_0.current == p.engine->Some_0.current
        },
{
}

/// Ten seconds after the timer ran out the machine is to be shut down, if that was
/// asked for; otherwise a shutdown is as pending as it was.
pub proof fn shutdown_is_ten_seconds_away(p: PlayerView, at: MomentView)
    requires
        p.sleep is Until,
        at.tick >= p.sleep->Until_0,
        at.tick <= 18_446_744_073_709_551_605_999_999_999,
    ensures
        p.shutdown_on_sleep ==> p.slept(at).shutdown_at == Some(at.tick + 10_000_000_000),
        !p.shutdown_on_sleep ==> p.slept(at).shutdown_at == p.shutdown_at,
        p.slept(at).shutdown_on_sleep == p.shutdown_on_sleep,
{
}

/// When the timer runs out, the position is remembered in the loaded book and in
/// no other.
pub proof fn position_is_kept_for_the_night(p: PlayerView, b: int, at: MomentView)
    requires
        p.db.valid(),
        0 <= b < p.db.books.len(),
        p.current_book_id == Some(p.db.books[b].book.id),
        p.engine is Some,
        history_has_room(p.db.history),
        p.sleep is Until,
        at.tick >= p.sleep->Until_0,
    ensures
        ({
            let after = p.slept(at);
            let pos = p.engine->Some_0.position();
            &&& after.db.books.len() == p.db.books.len()
            &&& after.db.books[b].book.position == pos
            &&& after.db.books[b].book.last_played == Some(at.stamp)
            &&& forall|k: int| 0 <= k < p.db.books.len() && k != b ==> #[trigger] after.db.books[k] == p.db.books[k]
            &&& after.last_save == at.tick
        }),
{
    let paused = PlayerView {
        engine: Some(crate::audio::EngineView { paused: true, ..p.engine->Some_0 }),
        ..p
    };
    position_is_kept_in_the_loaded_book(paused, b, at);
}

/// While a book plays, its position is remembered every five seconds: not before
/// five seconds have passed since the last time, and then at once. While none
/// plays, nothing happens.
pub proof fn position_is_kept_every_five_seconds(p: PlayerView, at: MomentView)
    requires
        p.sleep is Off || (p.sleep is Until && at.tick < p.sleep->Until_0),
    ensures
        !p.is_playing() ==> p.ticked(at) == p,
        p.is_playing() && at.tick < p.last_save + 5_000_000_000 ==> p.ticked(at) == p,
        p.is_playing() && at.tick >= p.last_save + 5_000_000_000 ==> p.ticked(at) == p.saved(at),
        p.is_playing() && p.current_book_id is Some && at.tick >= p.last_save + 5_000_000_000 ==> p.ticked(at).last_save
            == at.tick,
{
}

/// A timer that has run out takes effect at the next look at the clock, if a book
/// plays, and not while it is paused.
pub proof fn timer_counts_while_playing(p: PlayerView, at: MomentView)
    requires
        p.sleep is Until,
        at.tick >= p.sleep->Until_0,
    ensures
        p.is_playing() ==> !p.ticked(at).is_playing() && p.ticked(at).sleep is Off,
        !p.is_playing() ==> p.ticked(at) == p,
        p.is_playing() && p.current_book_id is Some ==> p.ticked(at).last_save == at.tick,
{
}

/// A book of known length is finished from thirty seconds before its end on; one
/// of no length never is.
pub proof fn finished_near_the_end(pos: nat, total: nat)
    ensures
        total == 0 ==> !is_finished(pos, total),
        total > 0 && pos >= total ==> is_finished(pos, total),
        total > 0 && pos < total ==> (is_finished(pos, total) <==> total - pos <= 30_000_000_000),
{
}

/// A moment some seconds later is that much later, or the last there is.
pub proof fn later_by_so_much(tick: nat, secs: u64)
    requires
        tick <= 18_446_744_073_709_551_615_999_999_999,
    ensures
        tick <= later(tick, secs) <= 18_446_744_073_709_551_615_999_999_999,
        later(tick, secs) < 18_446_744_073_709_551_615_999_999_999 ==> later(tick, secs) - tick == secs * 1_000_000_000,
        tick + secs * 1_000_000_000 <= 18_446_744_073_709_551_615_999_999_999 ==> later(tick, secs) - tick == secs
            * 1_000_000_000,
{
}

/// A timer with so many minutes and seconds left is shown with them, the seconds
/// in two digits; setting it says in how many minutes it runs out, the one that
/// has begun included.
pub proof fn timer_shows_what_is_left(t: nat, tick: nat, mins: nat, secs: nat)
    requires
        secs < 60,
        (mins * 60 + secs) * 1_000_000_000 <= t - tick < (mins * 60 + secs + 1) * 1_000_000_000,
    ensures
        sleep_text(SleepView::Until(t), tick) == icons::CLOCK@ + " "@ + decimal(mins) + ":"@ + two_digits(secs),
        sleep_status_text(SleepView::Until(t), tick) == "Sleep in "@ + decimal(mins + 1) + " min."@,
{
    let left = mins * 60 + secs;
    let rest = (t - tick) - left * 1_000_000_000;
    vstd::arithmetic::div_mod::lemma_fundamental_div_mod_converse(t - tick, 1_000_000_000, left as int, rest);
    vstd::arithmetic::div_mod::lemma_fundamental_div_mod_converse(left as int, 60, mins as int, secs as int);
    crate::writing::two_digits_are_padded(secs);
}

/// A timer that is off, and one that waits for the end of the chapter, are called
/// that.
pub proof fn other_timers_are_named(c: usize, tick: nat)
    ensures
        sleep_text(SleepView::Off, tick) == "Off"@,
        sleep_text(SleepView::EndOfChapter(c), tick) == "End of chapter"@,
        sleep_status_text(SleepView::Off, tick) == "Sleep timer off."@,
        sleep_status_text(SleepView::EndOfChapter(c), tick) == "Sleep at end of chapter."@,
{
}

/// A timer that is over shows nothing left.
pub proof fn timer_that_is_over_shows_none_left(t: nat, tick: nat)
    requires
        tick >= t,
    ensures
        sleep_text(SleepView::Until(t), tick) == icons::CLOCK@ + " "@ + decimal(0) + ":"@ + two_digits(0),
        sleep_status_text(SleepView::Until(t), tick) == "Sleep in "@ + decimal(1) + " min."@,
{
    crate::writing::two_digits_are_padded(0);
}

/// A shutdown that is pending counts down in seconds, the one that has begun
/// included, and is due at its time.
pub proof fn shutdown_counts_down(t: nat, tick: nat, secs: nat)
    requires
        t <= 18_446_744_073_709_551_615_999_999_999,
    ensures
        tick >= t ==> shutdown_due(Some(t), tick) is Now,
        secs > 0 && (secs - 1) * 1_000_000_000 <= t - tick < secs * 1_000_000_000 && t > tick ==> shutdown_due(Some(t), tick)
            == Shutdown::Countdown(secs as u128),
        shutdown_due(None, tick) is Idle,
{
    if secs > 0 && (secs - 1) * 1_000_000_000 <= t - tick < secs * 1_000_000_000 && t > tick {
        let rest = (t - tick) - (secs - 1) * 1_000_000_000;
        vstd::arithmetic::div_mod::lemma_fundamental_div_mod_converse(t - tick, 1_000_000_000, secs - 1, rest);
    }
}

} // verus!
