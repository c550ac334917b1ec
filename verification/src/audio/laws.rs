//! What holds of frames, speeds and the files of a book, told in whole numbers.

use vstd::prelude::*;

use crate::audio::source::{file_at, frame_of_time, kept_speed, nearest, starts_of, sum_of, time_of_frame, FeedView, OutputView};
use crate::audio::EngineView;
use crate::library::MetaView;

verus! {

/// Rounding is to the nearest whole number, and to the even one of two that are
/// equally near.
pub proof fn rounding_is_to_the_nearest(n: nat, d: nat)
    requires
        d > 0,
    ensures
        ({
            let r = nearest(n, d);
            &&& 2 * (r * d - n) <= d
            &&& 2 * (n - r * d) <= d
            &&& 2 * (r * d - n) == d || 2 * (n - r * d) == d ==> r % 2 == 0
        }),
{
    let q = n / d;
    let rest = n % d;
    vstd::arithmetic::div_mod::lemma_fundamental_div_mod(n as int, d as int);
    assert(q * d == d * q) by (nonlinear_arith);
    assert((q + 1) * d == q * d + d) by (nonlinear_arith);
}

/// A frame begins at its number of frames, counted at the rate, to the nearest
/// nanosecond; the first begins at the beginning.
pub proof fn frame_begins_at_its_time(frame: u64, rate: u32)
    requires
        rate > 0,
    ensures
        2 * (time_of_frame(frame, rate) * rate - frame * 1_000_000_000) <= rate,
        2 * (frame * 1_000_000_000 - time_of_frame(frame, rate) * rate) <= rate,
{
    rounding_is_to_the_nearest(frame as nat * 1_000_000_000, rate as nat);
}

/// The frame that plays at a time has begun by then, and the next has not; of
/// those beyond the last that can be asked for, it is that one.
pub proof fn frame_plays_at_its_time(time: nat, rate: u32)
    ensures
        ({
            let f = frame_of_time(time, rate);
            &&& f <= 0x7fff_ffff_ffff_ffff
            &&& f * 1_000_000_000 <= time * rate
            &&& f < 0x7fff_ffff_ffff_ffff ==> time * rate < (f + 1) * 1_000_000_000
        }),
{
    let n = (time * rate as nat) as int;
    vstd::arithmetic::div_mod::lemma_fundamental_div_mod(n, 1_000_000_000);
}

/// A speed is kept if it is one from a quarter to four times the normal; a lower or
/// negative one becomes a quarter, and a higher one four times. The bits of
/// positive floats are in the order of what they stand for, and those of negative
/// ones have the highest bit set.
pub proof fn speed_is_kept_in_range(bits: u32)
    ensures
        0x3e80_0000 <= bits <= 0x4080_0000 ==> kept_speed(bits) == bits,
        bits < 0x3e80_0000 ==> kept_speed(bits) == 0x3e80_0000,
        0x4080_0000 < bits <= 0x7f80_0000 ==> kept_speed(bits) == 0x4080_0000,
        0x8000_0000 <= bits <= 0xff80_0000 ==> kept_speed(bits) == 0x3e80_0000,
        0x7f80_0000 < bits < 0x8000_0000 || bits > 0xff80_0000 ==> kept_speed(bits) == bits,
{
}

/// A faster choice never plays slower.
pub proof fn faster_is_not_slower(a: u32, b: u32)
    requires
        a <= b <= 0x7f80_0000,
    ensures
        kept_speed(a) <= kept_speed(b),
{
}

/// The files of a book begin one after the other: the first at the beginning, and
/// each where the one before it ends.
pub proof fn files_begin_one_after_the_other(lengths: Seq<nat>, i: int)
    requires
        0 <= i < lengths.len(),
    ensures
        starts_of(lengths).len() == lengths.len(),
        starts_of(lengths)[0] == 0,
        i + 1 < lengths.len() ==> starts_of(lengths)[i + 1] == starts_of(lengths)[i] + lengths[i],
        sum_of(lengths, lengths.len() as int) == starts_of(lengths).last() + lengths.last(),
{
    assert(starts_of(lengths)[0] == sum_of(lengths, 0));
}

proof fn last_begun(starts: Seq<nat>, target: nat, n: int)
    requires
        0 < n <= starts.len(),
        starts[0] <= target,
    ensures
        0 <= file_at(starts, target, n) < n,
        starts[file_at(starts, target, n)] <= target,
        forall|i: int| file_at(starts, target, n) < i < n ==> target < #[trigger] starts[i],
    decreases n,
{
    if starts[n - 1] > target {
        last_begun(starts, target, n - 1);
    }
}

/// A seek closes the file that plays and goes to the last one that begins at or
/// before the target: beyond the end of the book, to the last file.
pub proof fn seek_goes_to_the_last_begun(f: FeedView, target: nat)
    requires
        f.starts.len() > 0,
        f.starts[0] == 0,
    ensures
        ({
            let after = f.seeking(target);
            &&& !after.open
            &&& 0 <= after.idx < f.starts.len()
            &&& f.starts[after.idx] <= target
            &&& forall|i: int| after.idx < i < f.starts.len() ==> target < #[trigger] f.starts[i]
            &&& after.starts == f.starts && after.total == f.total
        }),
{
    last_begun(f.starts, target, f.starts.len() as int);
}

/// Loading a book tells it from the ones before, and leaves it waiting at its
/// first frame with no seek to be made.
pub proof fn loading_starts_afresh(e: EngineView, path: Seq<char>, meta: MetaView, rate: u32)
    ensures
        ({
            let after = e.loaded(path, meta, rate);
            &&& after.loads != e.loads
            &&& e.loads < u64::MAX ==> after.loads == e.loads + 1
            &&& after.controls is Some
            &&& after.controls->Some_0.position_frames == 0
            &&& after.controls->Some_0.seek_frames is None
            &&& after.controls->Some_0.input_rate == rate
            &&& after.speed_bits == e.speed_bits
            &&& after.paused
        }),
{
}

/// A seek is asked of the source once, for the frame that is shown at once.
pub proof fn seek_is_asked_of_the_source(e: EngineView, pos: nat)
    requires
        e.controls is Some,
    ensures
        ({
            let c = e.sought(pos).controls->Some_0;
            &&& e.sought(pos).controls is Some
            &&& c.seek_frames == Some(c.position_frames)
            &&& c.input_rate == e.controls->Some_0.input_rate
            &&& c.speed_bits == e.controls->Some_0.speed_bits
        }),
{
}

/// A filling of the output is handed out from its first sample on; one without
/// samples ends the output, and so does one at the end of the book once it is
/// used up.
pub proof fn filling_is_handed_out(o: OutputView, len: int, ended: bool)
    requires
        0 <= len <= usize::MAX,
    ensures
        ({
            let f = o.filled(len, ended);
            &&& f.pos == 0 && f.len == len
            &&& len > 0 ==> f.emit() == crate::audio::source::Emit::Sample(0)
            &&& len == 0 ==> f.emit() is Done
            &&& len > 0 && !o.ended && !ended ==> !f.ended
            &&& ended || o.ended ==> f.ended
        }),
{
}

} // verus!
