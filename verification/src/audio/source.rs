//! Where playback stands and where it goes: the control surface between the
//! player and its audio source, and the files that are played back to back as
//! one book.
//!
//! The position of a book is counted in *input* frames, so that it stays true
//! when the tempo is changed.

use vstd::prelude::*;

use crate::library::tables::NORMAL_SPEED_BITS;
use crate::library::views;
use crate::time::{Duration, MAX_NANOS, NANOS_PER_SEC};

verus! {

/// The bits of the 32-bit float 0.25, the slowest speed.
pub const MIN_SPEED_BITS: u32 = 0x3e80_0000;

/// The bits of the 32-bit float 4.0, the fastest speed.
pub const MAX_SPEED_BITS: u32 = 0x4080_0000;

/// How many frames are read at a time.
pub const CHUNK_FRAMES: usize = 2048;

// ---- frames and times ------------------------------------------------------

/// `n / d`, rounded to the nearest whole number, and to the even one of two
/// that are equally near.
pub open spec fn nearest(n: nat, d: nat) -> nat {
    let q = n / d;
    let rest = n % d;
    if 2 * rest > d || (2 * rest == d && q % 2 == 1) {
        q + 1
    } else {
        q
    }
}

/// When a frame begins, in nanoseconds.
pub open spec fn time_of_frame(frame: u64, rate: u32) -> nat {
    nearest(frame as nat * NANOS_PER_SEC as nat, rate as nat)
}

/// The frame that plays at a time, in nanoseconds; the last that can be asked
/// for stands for all beyond it.
pub open spec fn frame_of_time(time: nat, rate: u32) -> nat {
    let frame = time * rate as nat / NANOS_PER_SEC as nat;
    if frame <= i64::MAX {
        frame
    } else {
        i64::MAX as nat
    }
}

/// When a frame begins.
pub fn frame_time(frame: u64, rate: u32) -> (r: Duration)
    requires
        rate > 0,
    ensures
        r@ == time_of_frame(frame, rate),
{
    let n: u128 = frame as u128 * NANOS_PER_SEC;
    let d: u128 = rate as u128;
    let q: u128 = n / d;
    let rest: u128 = n % d;
    proof {
        assert(n == frame as nat * NANOS_PER_SEC as nat);
        assert(q <= n) by (nonlinear_arith)
            requires
                q == n / d,
                d >= 1,
        ;
        assert(n <= 18_446_744_073_709_551_615 * 1_000_000_000);
    }
    let t: u128 = if 2 * rest > d || (2 * rest == d && q % 2 == 1) { q + 1 } else { q };
    Duration::from_nanos_saturating(t)
}

/// The frame that plays at a time.
pub fn time_frame(time: Duration, rate: u32) -> (r: u64)
    ensures
        r == frame_of_time(time@, rate),
        r <= i64::MAX,
{
    // Seconds and the rest are taken apart so that the products stay small.
    let secs: u128 = time.as_secs() as u128;
    let rest: u128 = time.subsec_nanos() as u128;
    let n: u128 = rate as u128;
    proof {
        let t = time@ as int;
        let b = NANOS_PER_SEC as int;
        assert(t == secs as int * b + rest as int) by {
            vstd::arithmetic::div_mod::lemma_fundamental_div_mod(t, b);
        }
        assert(t * n as int == (secs as int * n as int) * b + rest as int * n as int) by (nonlinear_arith)
            requires
                t == secs as int * b + rest as int,
        ;
        vstd::arithmetic::div_mod::lemma_div_multiples_vanish_fancy(
            secs as int * n as int,
            (rest as int * n as int) % b,
            b,
        );
        vstd::arithmetic::div_mod::lemma_fundamental_div_mod(rest as int * n as int, b);
        let q = rest as int * n as int / b;
        assert((secs as int * n as int + q) * b + (rest as int * n as int) % b == t * n as int) by (nonlinear_arith)
            requires
                t * n as int == (secs as int * n as int) * b + rest as int * n as int,
                rest as int * n as int == b * q + (rest as int * n as int) % b,
        ;
        vstd::arithmetic::div_mod::lemma_fundamental_div_mod_converse(
            t * n as int,
            b,
            secs as int * n as int + q,
            (rest as int * n as int) % b,
        );
        assert(secs * n <= 0xffff_ffff_ffff_ffff * 0xffff_ffff) by (nonlinear_arith)
            requires
                secs <= 0xffff_ffff_ffff_ffff,
                n <= 0xffff_ffff,
        ;
        assert(rest * n <= 1_000_000_000 * 0xffff_ffff) by (nonlinear_arith)
            requires
                rest < 1_000_000_000,
                n <= 0xffff_ffff,
        ;
    }
    let frame: u128 = secs * n + rest * n / NANOS_PER_SEC;
    assert(frame == time@ * rate as nat / NANOS_PER_SEC as nat);
    if frame <= i64::MAX as u128 {
        frame as u64
    } else {
        i64::MAX as u64
    }
}

// ---- controls --------------------------------------------------------------

/// A speed, as the bits of a 32-bit float, as it is kept: between the slowest
/// and the fastest. What is not a number is left alone.
pub open spec fn kept_speed(bits: u32) -> u32 {
    let magnitude = if bits >= 0x8000_0000 { bits - 0x8000_0000 } else { bits as int };
    if magnitude > 0x7f80_0000 {
        bits
    } else if bits >= 0x8000_0000 || bits < MIN_SPEED_BITS {
        MIN_SPEED_BITS
    } else if bits > MAX_SPEED_BITS {
        MAX_SPEED_BITS
    } else {
        bits
    }
}

/// A speed as it is kept.
pub fn keep_speed(bits: u32) -> (r: u32)
    ensures
        r == kept_speed(bits),
{
    let magnitude: u32 = if bits >= 0x8000_0000 { bits - 0x8000_0000 } else { bits };
    if magnitude > 0x7f80_0000 {
        bits
    } else if bits >= 0x8000_0000 || bits < MIN_SPEED_BITS {
        MIN_SPEED_BITS
    } else if bits > MAX_SPEED_BITS {
        MAX_SPEED_BITS
    } else {
        bits
    }
}

/// Control and status surface between the engine (UI thread) and the source
/// (audio thread).
#[derive(Debug)]
pub struct Controls {
    input_rate: u32,
    position_frames: u64,
    speed_bits: u32,
    seek_frames: Option<u64>,
}

/// What [`Controls`] hold.
pub struct ControlsView {
    pub input_rate: u32,
    pub position_frames: u64,
    pub speed_bits: u32,
    pub seek_frames: Option<u64>,
}

impl View for Controls {
    type V = ControlsView;

    closed spec fn view(&self) -> ControlsView {
        ControlsView {
            input_rate: self.input_rate,
            position_frames: self.position_frames,
            speed_bits: self.speed_bits,
            seek_frames: self.seek_frames,
        }
    }
}

impl ControlsView {
    /// The position in the book.
    pub open spec fn position(self) -> nat {
        time_of_frame(self.position_frames, self.input_rate)
    }

    /// The controls after a seek was asked for. The position is the new one at
    /// once, so that it shows even while paused.
    pub open spec fn sought(self, pos: nat) -> ControlsView {
        let frame = frame_of_time(pos, self.input_rate) as u64;
        ControlsView { position_frames: frame, seek_frames: Some(frame), ..self }
    }
}

impl Controls {
    #[verifier::type_invariant]
    spec fn has_rate(self) -> bool {
        self.input_rate > 0
    }

    /// Controls of a book that plays at this many frames per second.
    pub fn new(input_rate: u32) -> (r: Controls)
        requires
            input_rate > 0,
        ensures
            r@ == (ControlsView {
                input_rate,
                position_frames: 0,
                speed_bits: NORMAL_SPEED_BITS,
                seek_frames: None,
            }),
    {
        Controls { input_rate, position_frames: 0, speed_bits: NORMAL_SPEED_BITS, seek_frames: None }
    }

    /// Frames per second.
    pub fn input_rate(&self) -> (r: u32)
        ensures
            r == self@.input_rate,
            r > 0,
    {
        proof {
            use_type_invariant(self);
        }
        self.input_rate
    }

    /// The speed, as the bits of a 32-bit float.
    pub fn speed(&self) -> (bits: u32)
        ensures
            bits == self@.speed_bits,
    {
        self.speed_bits
    }

    /// Change the speed, given as the bits of a 32-bit float.
    pub fn set_speed(&mut self, bits: u32)
        ensures
            final(self)@ == (ControlsView { speed_bits: kept_speed(bits), ..old(self)@ }),
    {
        proof {
            use_type_invariant(&*self);
        }
        self.speed_bits = keep_speed(bits);
    }

    /// The position in the book.
    pub fn position(&self) -> (r: Duration)
        ensures
            r@ == self@.position(),
    {
        proof {
            use_type_invariant(self);
        }
        frame_time(self.position_frames, self.input_rate)
    }

    /// Ask for another position. It is reflected immediately, so that it shows
    /// even while paused (the source only applies the seek on its next pull, and
    /// then re-affirms this same value).
    pub fn request_seek(&mut self, pos: Duration)
        ensures
            final(self)@ == old(self)@.sought(pos@),
    {
        proof {
            use_type_invariant(&*self);
        }
        let frame: u64 = time_frame(pos, self.input_rate);
        self.seek_frames = Some(frame);
        self.position_frames = frame;
    }

    /// Take the seek that was asked for, if any.
    pub fn take_seek(&mut self) -> (r: Option<u64>)
        ensures
            r == old(self)@.seek_frames,
            final(self)@ == (ControlsView { seek_frames: None, ..old(self)@ }),
    {
        proof {
            use_type_invariant(&*self);
        }
        let taken = self.seek_frames;
        self.seek_frames = None;
        taken
    }

    /// Affirm the position that was sought.
    pub fn arrive(&mut self, frame: u64)
        ensures
            final(self)@ == (ControlsView { position_frames: frame, ..old(self)@ }),
    {
        proof {
            use_type_invariant(&*self);
        }
        self.position_frames = frame;
    }

    /// Count frames that were read.
    pub fn advance(&mut self, frames: u64)
        ensures
            final(self)@ == (ControlsView {
                position_frames: old(self)@.position_frames.wrapping_add(frames),
                ..old(self)@
            }),
    {
        proof {
            use_type_invariant(&*self);
        }
        self.position_frames = self.position_frames.wrapping_add(frames);
    }
}

/// A position that was sought is the position at once, to within one frame: no
/// later, and less than a frame and a nanosecond earlier.
pub proof fn seek_is_seen(c: ControlsView, pos: nat)
    requires
        c.input_rate > 0,
        pos * c.input_rate as nat / NANOS_PER_SEC as nat <= i64::MAX,
    ensures
        c.sought(pos).position() <= pos,
        (pos - c.sought(pos).position()) * c.input_rate < NANOS_PER_SEC + c.input_rate,
{
    let rate = c.input_rate as int;
    let b = NANOS_PER_SEC as int;
    let p = pos as int;
    let frame = p * rate / b;
    let n = frame * b;
    vstd::arithmetic::div_mod::lemma_fundamental_div_mod(p * rate, b);
    assert(frame >= 0) by {
        vstd::arithmetic::mul::lemma_mul_nonnegative(p, rate);
        vstd::arithmetic::div_mod::lemma_div_pos_is_pos(p * rate, b);
    }
    assert(n <= p * rate && p * rate < n + b) by (nonlinear_arith)
        requires
            p * rate == b * frame + (p * rate) % b,
            0 <= (p * rate) % b < b,
            n == frame * b,
    ;
    let q = n / rate;
    let rest = n % rate;
    vstd::arithmetic::div_mod::lemma_fundamental_div_mod(n, rate);
    let t = c.sought(pos).position() as int;
    assert(c.sought(pos).position_frames == frame);
    assert(n >= 0) by (nonlinear_arith)
        requires
            frame >= 0,
            b > 0,
            n == frame * b,
    ;
    assert(t == q || (t == q + 1 && 2 * rest >= rate));
    // n = rate * q + rest, and n <= p * rate.
    assert(q <= p) by (nonlinear_arith)
        requires
            n == rate * q + rest,
            rest >= 0,
            n <= p * rate,
            rate > 0,
    ;
    if t == q + 1 {
        assert(q < p) by (nonlinear_arith)
            requires
                n == rate * q + rest,
                2 * rest >= rate,
                n <= p * rate,
                rate > 0,
        ;
    }
    assert((p - t) * rate < b + rate) by (nonlinear_arith)
        requires
            n == rate * q + rest,
            rest < rate,
            p * rate < n + b,
            t >= q,
            rate > 0,
    ;
}

/// However the speed is set, it ends up between the slowest and the fastest,
/// unless what was given is not a number.
pub proof fn speed_stays_in_range(bits: u32)
    requires
        !(0x7f80_0000 < bits < 0x8000_0000 || bits > 0xff80_0000),
    ensures
        MIN_SPEED_BITS <= kept_speed(bits) <= MAX_SPEED_BITS,
        kept_speed(kept_speed(bits)) == kept_speed(bits),
{
}

// ---- files played back to back ---------------------------------------------

/// The sum of the first `n` lengths.
pub open spec fn sum_of(lengths: Seq<nat>, n: int) -> nat
    decreases n,
{
    if n <= 0 {
        0
    } else {
        sum_of(lengths, n - 1) + lengths[n - 1]
    }
}

/// Where each file begins in the book.
pub open spec fn starts_of(lengths: Seq<nat>) -> Seq<nat> {
    Seq::new(lengths.len(), |i: int| sum_of(lengths, i))
}

/// The last file that begins at or before `target` among the first `n`, or the
/// first one.
pub open spec fn file_at(starts: Seq<nat>, target: nat, n: int) -> int
    decreases n,
{
    if n <= 0 {
        0
    } else if starts[n - 1] <= target {
        n - 1
    } else {
        file_at(starts, target, n - 1)
    }
}

/// What the source is to do for the next sample.
#[derive(Debug, Clone, Copy, PartialEq, Eq, Structural)]
pub enum FeedAction {
    /// There is nothing left to play.
    End,
    /// Open this file, and tell whether that worked.
    Open(usize),
    /// Take a sample from the file that is open, and tell whether there was one.
    Pull,
}

/// An ordered set of files played back to back, with global seeking.
#[derive(Debug)]
pub struct MultiFeed {
    starts: Vec<Duration>,
    total: Duration,
    idx: usize,
    open: bool,
}

/// What a [`MultiFeed`] holds.
#[verifier::ext_equal]
pub struct FeedView {
    /// Where each file begins.
    pub starts: Seq<nat>,
    /// How long the files are together.
    pub total: nat,
    /// The file that is played.
    pub idx: int,
    /// Whether that file is open.
    pub open: bool,
}

impl View for MultiFeed {
    type V = FeedView;

    closed spec fn view(&self) -> FeedView {
        FeedView { starts: views(self.starts@), total: self.total@, idx: self.idx as int, open: self.open }
    }
}

impl FeedView {
    /// What is to be done for the next sample.
    pub open spec fn action(self) -> FeedAction {
        if self.open {
            FeedAction::Pull
        } else if self.idx >= self.starts.len() {
            FeedAction::End
        } else {
            FeedAction::Open(self.idx as usize)
        }
    }

    /// The feed after a file was opened, or could not be: it is then skipped
    /// rather than ending the book.
    pub open spec fn after_open(self, ok: bool) -> FeedView {
        if ok {
            FeedView { open: true, ..self }
        } else {
            FeedView { idx: self.idx + 1, ..self }
        }
    }

    /// The feed after a sample was taken, or there was none left in the file.
    pub open spec fn after_pull(self, got: bool) -> FeedView {
        if got {
            self
        } else {
            FeedView { idx: self.idx + 1, open: false, ..self }
        }
    }

    /// The feed on its way to `target`.
    pub open spec fn seeking(self, target: nat) -> FeedView {
        FeedView { idx: file_at(self.starts, target, self.starts.len() as int), open: false, ..self }
    }
}

impl MultiFeed {
    #[verifier::type_invariant]
    spec fn has_files(self) -> bool {
        &&& self.starts.len() > 0
        &&& self.idx <= self.starts.len()
        &&& self.open ==> self.idx < self.starts.len()
    }

    /// A feed of files that are this long, of which the first is open. Without
    /// a file there is nothing to play.
    pub fn open(lengths: &Vec<Duration>) -> (r: Option<MultiFeed>)
        requires
            sum_of(views(lengths@), lengths.len() as int) <= MAX_NANOS,
        ensures
            r is None <==> lengths.len() == 0,
            r matches Some(f) ==> f@ == (FeedView {
                starts: starts_of(views(lengths@)),
                total: sum_of(views(lengths@), lengths.len() as int),
                idx: 0,
                open: true,
            }),
    {
        if lengths.len() == 0 {
            return None;
        }
        let ghost all = views(lengths@);
        let mut starts: Vec<Duration> = Vec::new();
        let mut total = Duration::zero();
        let mut i: usize = 0;
        while i < lengths.len()
            invariant
                i <= lengths.len(),
                all == views(lengths@),
                sum_of(all, lengths.len() as int) <= MAX_NANOS,
                starts.len() == i,
                total@ == sum_of(all, i as int),
                forall|k: int| 0 <= k < i ==> (#[trigger] starts@[k])@ == sum_of(all, k),
            decreases lengths.len() - i,
        {
            starts.push(total);
            proof {
                assert(all[i as int] == lengths@[i as int]@);
                sums_grow(all, i + 1, lengths.len() as int);
            }
            match total.checked_add(&lengths[i]) {
                Some(sum) => {
                    total = sum;
                },
                None => {},
            }
            i = i + 1;
        }
        assert(views(starts@) =~= starts_of(all));
        Some(MultiFeed { starts, total, idx: 0, open: true })
    }

    /// How long the files are together.
    pub fn total(&self) -> (r: Duration)
        ensures
            r@ == self@.total,
    {
        self.total
    }

    /// What is to be done for the next sample.
    pub fn action(&self) -> (r: FeedAction)
        ensures
            r == self@.action(),
            r matches FeedAction::Open(i) ==> i < self@.starts.len(),
    {
        assert(self@.starts.len() == self.starts.len());
        if self.open {
            FeedAction::Pull
        } else if self.idx >= self.starts.len() {
            FeedAction::End
        } else {
            FeedAction::Open(self.idx)
        }
    }

    /// Go on after a file was opened, or could not be.
    pub fn opened(&mut self, ok: bool)
        requires
            old(self)@.action() is Open,
        ensures
            final(self)@ == old(self)@.after_open(ok),
    {
        proof {
            use_type_invariant(&*self);
            assert(self@.starts.len() == self.starts.len());
        }
        if ok {
            self.open = true;
        } else {
            self.idx = self.idx + 1;
        }
    }

    /// Go on after a sample was taken, or there was none left in the file.
    pub fn pulled(&mut self, got: bool)
        requires
            old(self)@.action() is Pull,
        ensures
            final(self)@ == old(self)@.after_pull(got),
    {
        proof {
            use_type_invariant(&*self);
        }
        if !got {
            self.open = false;
            self.idx = self.idx + 1;
        }
    }

    /// Go to a position in the book: the file that holds it is to be opened, at
    /// the position within that file that is given back.
    pub fn seek_global(&mut self, target: Duration) -> (r: (usize, Duration))
        ensures
            final(self)@ == old(self)@.seeking(target@),
            r.0 == final(self)@.idx,
            r.0 < final(self)@.starts.len(),
            r.1@ == if target@ >= old(self)@.starts[r.0 as int] {
                (target@ - old(self)@.starts[r.0 as int]) as nat
            } else {
                0
            },
    {
        proof {
            use_type_invariant(&*self);
        }
        let ghost starts = views(self.starts@);
        let mut n = self.starts.len();
        let mut found: usize = 0;
        while n > 0
            invariant_except_break
                file_at(starts, target@, starts.len() as int) == file_at(starts, target@, n as int),
                found == 0,
            invariant
                self.starts.len() > 0,
                n <= self.starts.len(),
                starts == views(self.starts@),
            ensures
                found == file_at(starts, target@, starts.len() as int),
                found < self.starts.len(),
            decreases n,
        {
            assert(starts[n - 1] == self.starts@[n - 1]@);
            if self.starts[n - 1].at_most(&target) {
                found = n - 1;
                break;
            }
            n = n - 1;
        }
        assert(starts[found as int] == self.starts@[found as int]@);
        let within = target.saturating_sub(&self.starts[found]);
        self.open = false;
        self.idx = found;
        (found, within)
    }
}

proof fn sums_grow(lengths: Seq<nat>, m: int, n: int)
    requires
        0 <= m <= n <= lengths.len(),
    ensures
        sum_of(lengths, m) <= sum_of(lengths, n),
    decreases n - m,
{
    if m < n {
        sums_grow(lengths, m, n - 1);
    }
}

proof fn file_holds(starts: Seq<nat>, target: nat, n: int)
    requires
        0 < n <= starts.len(),
        starts[0] <= target,
    ensures
        0 <= file_at(starts, target, n) < n,
        starts[file_at(starts, target, n)] <= target,
        forall|i: int| file_at(starts, target, n) < i < n ==> target < #[trigger] starts[i],
    decreases n,
{
    if starts[n - 1] > target {
        file_holds(starts, target, n - 1);
    }
}

/// Every position of a book lies in one of its files: the one that a seek goes
/// to begins at or before it and ends after it.
pub proof fn seek_finds_the_file(lengths: Seq<nat>, target: nat)
    requires
        target < sum_of(lengths, lengths.len() as int),
    ensures
        ({
            let starts = starts_of(lengths);
            let i = file_at(starts, target, lengths.len() as int);
            &&& 0 <= i < lengths.len()
            &&& starts[i] <= target
            &&& target < starts[i] + lengths[i]
        }),
{
    let starts = starts_of(lengths);
    let n = lengths.len() as int;
    assert(n > 0);
    assert(starts[0] == sum_of(lengths, 0));
    file_holds(starts, target, n);
    let i = file_at(starts, target, n);
    assert(starts[i] + lengths[i] == sum_of(lengths, i + 1));
    if i + 1 < n {
        assert(starts[i + 1] == sum_of(lengths, i + 1));
        assert(target < starts[i + 1]);
    }
}

/// A feed only ends when no file is left: as long as there is one to play, it is
/// opened or played, and each that fails or ends brings the end one file nearer.
pub proof fn feed_plays_every_file(f: FeedView)
    requires
        f.open ==> f.idx < f.starts.len(),
    ensures
        f.action() is End <==> !f.open && f.idx >= f.starts.len(),
        f.action() is Open ==> f.after_open(false).idx == f.idx + 1 && f.after_open(true).action() is Pull,
        f.action() is Pull ==> f.after_pull(false).idx == f.idx + 1 && f.after_pull(true).action() is Pull,
{
}

/// The samples of the files from the `n`th on, one file after the other. Of a
/// file that cannot be opened there are none.
pub open spec fn samples_from<T>(files: Seq<Option<Seq<T>>>, n: int) -> Seq<T>
    decreases files.len() - n,
{
    if n >= files.len() {
        Seq::empty()
    } else {
        (match files[n] {
            Some(s) => s,
            None => Seq::empty(),
        }) + samples_from(files, n + 1)
    }
}

/// A feed in play: where it stands, and what is left of the file that is open.
#[verifier::ext_equal]
pub struct Playing<T> {
    pub feed: FeedView,
    pub left: Seq<T>,
}

impl<T> Playing<T> {
    /// Whether this feed plays these files.
    pub open spec fn plays(self, files: Seq<Option<Seq<T>>>) -> bool {
        &&& self.feed.starts.len() == files.len()
        &&& files.len() <= usize::MAX
        &&& 0 <= self.feed.idx <= files.len()
        &&& self.feed.open ==> self.feed.idx < files.len()
    }

    /// The next sample, and the feed after it: what the feed asks for is done
    /// until there is a sample or the end.
    pub open spec fn next(self, files: Seq<Option<Seq<T>>>) -> (Option<T>, Playing<T>)
        decreases
            if self.feed.idx < self.feed.starts.len() {
                self.feed.starts.len() - self.feed.idx + 1
            } else if self.feed.open {
                1int
            } else {
                0int
            },
            if self.feed.open {
                0int
            } else {
                1int
            },
    {
        match self.feed.action() {
            FeedAction::End => (None, self),
            FeedAction::Open(i) => match files[i as int] {
                Some(s) => Playing { feed: self.feed.after_open(true), left: s }.next(files),
                None => Playing { feed: self.feed.after_open(false), left: self.left }.next(files),
            },
            FeedAction::Pull => if self.left.len() > 0 {
                (Some(self.left[0]), Playing { feed: self.feed.after_pull(true), left: self.left.drop_first() })
            } else {
                Playing { feed: self.feed.after_pull(false), left: self.left }.next(files)
            },
        }
    }

    /// The feed after `n` samples were asked for.
    pub open spec fn after(self, files: Seq<Option<Seq<T>>>, n: nat) -> Playing<T>
        decreases n,
    {
        if n == 0 {
            self
        } else {
            self.after(files, (n - 1) as nat).next(files).1
        }
    }

    /// The samples that are left to play.
    pub open spec fn rest(self, files: Seq<Option<Seq<T>>>) -> Seq<T> {
        if self.feed.open {
            self.left + samples_from(files, self.feed.idx + 1)
        } else {
            samples_from(files, self.feed.idx)
        }
    }
}

/// A feed gives the first of the samples that are left, and keeps the others to
/// give; it gives none only when no file has any left.
pub proof fn next_sample_is_given<T>(p: Playing<T>, files: Seq<Option<Seq<T>>>)
    requires
        p.plays(files),
    ensures
        ({
            let (got, after) = p.next(files);
            &&& after.plays(files)
            &&& got == if p.rest(files).len() > 0 {
                Some(p.rest(files)[0])
            } else {
                None
            }
            &&& after.rest(files) == if p.rest(files).len() > 0 {
                p.rest(files).drop_first()
            } else {
                Seq::empty()
            }
        }),
    decreases files.len() - p.feed.idx, if p.feed.open { 0int } else { 1int },
{
    match p.feed.action() {
        FeedAction::End => {},
        FeedAction::Open(i) => match files[i as int] {
            Some(s) => {
                next_sample_is_given(Playing { feed: p.feed.after_open(true), left: s }, files);
            },
            None => {
                let q = Playing { feed: p.feed.after_open(false), left: p.left };
                next_sample_is_given(q, files);
                assert(q.rest(files) =~= p.rest(files));
            },
        },
        FeedAction::Pull => {
            if p.left.len() > 0 {
                assert(p.left.drop_first() + samples_from(files, p.feed.idx + 1) =~= p.rest(files).drop_first());
            } else {
                let q = Playing { feed: p.feed.after_pull(false), left: p.left };
                next_sample_is_given(q, files);
                assert(q.rest(files) =~= p.rest(files));
            }
        },
    }
}

proof fn samples_follow<T>(p: Playing<T>, files: Seq<Option<Seq<T>>>, n: nat)
    requires
        p.plays(files),
    ensures
        p.after(files, n).plays(files),
        p.after(files, n).rest(files) == if n <= p.rest(files).len() {
            p.rest(files).skip(n as int)
        } else {
            Seq::empty()
        },
    decreases n,
{
    let all = p.rest(files);
    if n == 0 {
        assert(all.skip(0) =~= all);
    } else {
        let before = p.after(files, (n - 1) as nat);
        samples_follow(p, files, (n - 1) as nat);
        next_sample_is_given(before, files);
        assert(p.after(files, n).rest(files) =~= if n <= all.len() {
            all.skip(n as int)
        } else {
            Seq::empty()
        });
    }
}

/// A book plays from its first sample to its last without a gap: as long as no
/// one seeks, the samples are those of the files that can be opened, one file
/// after the other, and then there are none for ever.
pub proof fn book_plays_through<T>(p: Playing<T>, files: Seq<Option<Seq<T>>>, n: nat)
    requires
        p.plays(files),
        p.feed.idx == 0,
        p.feed.open,
        files[0] == Some(p.left),
    ensures
        p.after(files, n).next(files).0 == if n < samples_from(files, 0).len() {
            Some(samples_from(files, 0)[n as int])
        } else {
            None
        },
{
    assert(p.rest(files) =~= samples_from(files, 0));
    samples_follow(p, files, n);
    next_sample_is_given(p.after(files, n), files);
}

/// A file that cannot be opened, or is empty, adds nothing to a book and does
/// not end it: what plays is what plays of the other files.
pub proof fn silent_file_adds_nothing<T>(files: Seq<Option<Seq<T>>>, i: int, n: int)
    requires
        0 <= n <= i < files.len(),
        files[i] is None || files[i]->Some_0.len() == 0,
    ensures
        samples_from(files, n) == samples_from(files.remove(i), n),
    decreases i - n,
{
    if n < i {
        silent_file_adds_nothing(files, i, n + 1);
    } else {
        same_samples(files, i, i);
        assert(samples_from(files, n) =~= samples_from(files, n + 1));
    }
}

proof fn same_samples<T>(files: Seq<Option<Seq<T>>>, i: int, n: int)
    requires
        0 <= i <= n < files.len(),
    ensures
        samples_from(files, n + 1) == samples_from(files.remove(i), n),
    decreases files.len() - n,
{
    if n + 1 < files.len() {
        same_samples(files, i, n + 1);
    }
}

// ---- the output ------------------------------------------------------------

/// What the source is to do when it is asked for a sample.
#[derive(Debug, Clone, Copy, PartialEq, Eq, Structural)]
pub enum Emit {
    /// Hand out the sample at this place.
    Sample(usize),
    /// Fill the output anew.
    Refill,
    /// There is nothing left.
    Done,
}

/// The samples that are ready to be handed out.
#[derive(Debug)]
pub struct Output {
    len: usize,
    pos: usize,
    ended: bool,
}

/// What an [`Output`] holds.
#[verifier::ext_equal]
pub struct OutputView {
    /// How many samples there are.
    pub len: int,
    /// How many of them were handed out.
    pub pos: int,
    /// Whether the end of the book was seen.
    pub ended: bool,
}

impl View for Output {
    type V = OutputView;

    closed spec fn view(&self) -> OutputView {
        OutputView { len: self.len as int, pos: self.pos as int, ended: self.ended }
    }
}

impl OutputView {
    /// What is to be done when a sample is asked for.
    pub open spec fn emit(self) -> Emit {
        if self.pos < self.len {
            Emit::Sample(self.pos as usize)
        } else if self.ended {
            Emit::Done
        } else {
            Emit::Refill
        }
    }

    /// The output after a sample was asked for.
    pub open spec fn asked(self) -> OutputView {
        if self.pos < self.len {
            OutputView { pos: self.pos + 1, ..self }
        } else {
            self
        }
    }

    /// The output after it was filled anew with so many samples, at the end of
    /// the book or not. A filling that brings none is at the end.
    pub open spec fn filled(self, len: int, ended: bool) -> OutputView {
        OutputView { len, pos: 0, ended: self.ended || ended || len == 0 }
    }

    /// Which sample a listener gets who asks for one, where a filling, should it
    /// come to one, brings so many samples; and the output afterwards.
    pub open spec fn answer(self, len: int, ended: bool) -> (Emit, OutputView) {
        if self.emit() is Refill {
            (self.filled(len, ended).emit(), self.filled(len, ended).asked())
        } else {
            (self.emit(), self.asked())
        }
    }

    /// The output after `n` samples were asked for, with these fillings.
    pub open spec fn after(self, fillings: Seq<(int, bool)>, n: int) -> OutputView
        decreases n,
    {
        if n <= 0 {
            self
        } else {
            self.after(fillings, n - 1).answer(fillings[n - 1].0, fillings[n - 1].1).1
        }
    }

    /// The answer to the request after the first `n`.
    pub open spec fn answer_to(self, fillings: Seq<(int, bool)>, n: int) -> Emit {
        self.after(fillings, n).answer(fillings[n].0, fillings[n].1).0
    }
}

impl Output {
    /// An output with nothing in it yet.
    pub fn new() -> (r: Output)
        ensures
            r@ == (OutputView { len: 0, pos: 0, ended: false }),
    {
        Output { len: 0, pos: 0, ended: false }
    }

    /// What is to be done when a sample is asked for.
    pub fn ask(&mut self) -> (r: Emit)
        ensures
            r == old(self)@.emit(),
            final(self)@ == old(self)@.asked(),
    {
        if self.pos < self.len {
            let at = self.pos;
            self.pos = self.pos + 1;
            Emit::Sample(at)
        } else if self.ended {
            Emit::Done
        } else {
            Emit::Refill
        }
    }

    /// Go on after the output was filled anew.
    pub fn filled(&mut self, len: usize, ended: bool)
        ensures
            final(self)@ == old(self)@.filled(len as int, ended),
    {
        self.len = len;
        self.pos = 0;
        self.ended = self.ended || ended || len == 0;
    }
}

/// A source that has ended stays ended: once there was no sample for a listener,
/// there is none ever after, whatever is sought meanwhile, for a seek is only
/// seen when the output is filled.
pub proof fn ended_source_stays_ended(o: OutputView, fillings: Seq<(int, bool)>, i: int, j: int)
    requires
        forall|n: int| 0 <= n < fillings.len() ==> (#[trigger] fillings[n]).0 >= 0,
        0 <= i <= j < fillings.len(),
        !(o.answer_to(fillings, i) is Sample),
    ensures
        o.answer_to(fillings, j) is Done,
        o.after(fillings, j + 1).emit() is Done,
    decreases j - i,
{
    assert(fillings[i].0 >= 0 && fillings[j].0 >= 0);
    if i < j {
        ended_source_stays_ended(o, fillings, i, j - 1);
    }
}

/// A filled output is handed out whole and in order before it is filled again.
pub proof fn output_is_handed_out_in_order(o: OutputView, fillings: Seq<(int, bool)>, n: int)
    requires
        0 <= o.pos,
        0 <= n < o.len - o.pos,
        n < fillings.len(),
        o.len <= usize::MAX,
    ensures
        o.after(fillings, n) == (OutputView { pos: o.pos + n, ..o }),
        o.answer_to(fillings, n) == Emit::Sample((o.pos + n) as usize),
    decreases n,
{
    if n > 0 {
        output_is_handed_out_in_order(o, fillings, n - 1);
    }
}

/// How many samples make up a chunk.
pub fn chunk_samples(channels: u16) -> (r: usize)
    ensures
        r == CHUNK_FRAMES * channels,
{
    CHUNK_FRAMES * channels as usize
}

/// How many frames so many samples are.
pub fn frames_read(samples: usize, channels: u16) -> (r: u64)
    ensures
        r == samples / (if channels == 0 { 1usize } else { channels as usize }),
{
    let per_frame: usize = if channels == 0 { 1 } else { channels as usize };
    (samples / per_frame) as u64
}

} // verus!
