//! The playback engine, apart from the device that plays: which book is loaded,
//! whether it is paused, where it stands and how fast it goes. Position and
//! seeking go through the [`source::Controls`] that the audio source shares.

pub mod laws;
pub mod source;

use vstd::prelude::*;

use crate::library::meta;
use crate::library::meta::chapter_of;
use crate::library::tables::NORMAL_SPEED_BITS;
use crate::library::{views, BookMeta, MetaView};
use crate::time::{Duration, MAX_NANOS, NANOS_PER_SEC};
use source::{kept_speed, Controls, ControlsView};

verus! {

/// The book currently loaded into the engine.
#[derive(Debug)]
pub struct LoadedBook {
    pub path: String,
    pub meta: BookMeta,
}

/// What a [`LoadedBook`] holds.
#[verifier::ext_equal]
pub struct LoadedView {
    pub path: Seq<char>,
    pub meta: MetaView,
}

impl View for LoadedBook {
    type V = LoadedView;

    open spec fn view(&self) -> LoadedView {
        LoadedView { path: self.path@, meta: self.meta@ }
    }
}

/// Why the engine refused to go to a chapter.
#[derive(Debug, Clone, Copy, PartialEq, Eq, Structural)]
pub enum EngineError {
    NoBook,
    NoSuchChapter,
}

impl EngineError {
    /// The error in words.
    pub open spec fn text(self) -> Seq<char> {
        match self {
            EngineError::NoBook => "no book loaded"@,
            EngineError::NoSuchChapter => "chapter index out of range"@,
        }
    }

    /// The error in words.
    pub fn message(&self) -> (r: String)
        ensures
            r@ == self.text(),
    {
        match self {
            EngineError::NoBook => "no book loaded".to_owned(),
            EngineError::NoSuchChapter => "chapter index out of range".to_owned(),
        }
    }
}

/// The playback engine.
#[derive(Debug)]
pub struct PlaybackEngine {
    current: Option<LoadedBook>,
    controls: Option<Controls>,
    speed_bits: u32,
    paused: bool,
    loads: u64,
}

/// What a [`PlaybackEngine`] holds.
#[verifier::ext_equal]
pub struct EngineView {
    pub current: Option<LoadedView>,
    pub controls: Option<ControlsView>,
    /// The chosen speed, as the bits of a 32-bit float.
    pub speed_bits: u32,
    pub paused: bool,
    /// Tells the book that is loaded from those before it.
    pub loads: u64,
}

impl View for PlaybackEngine {
    type V = EngineView;

    closed spec fn view(&self) -> EngineView {
        EngineView {
            current: match self.current {
                Some(b) => Some(b@),
                None => None,
            },
            controls: match self.controls {
                Some(c) => Some(c@),
                None => None,
            },
            speed_bits: self.speed_bits,
            paused: self.paused,
            loads: self.loads,
        }
    }
}

/// The position some seconds away from another, but neither before the beginning
/// nor beyond the longest span.
pub open spec fn shifted(pos: nat, secs: int) -> nat {
    let target = pos + secs * NANOS_PER_SEC;
    if target < 0 {
        0
    } else if target > MAX_NANOS {
        MAX_NANOS as nat
    } else {
        target as nat
    }
}

impl EngineView {
    /// The position from the start of the book.
    pub open spec fn position(self) -> nat {
        match self.controls {
            Some(c) => c.position(),
            None => 0,
        }
    }

    /// The engine after a seek.
    pub open spec fn sought(self, pos: nat) -> EngineView {
        EngineView {
            controls: match self.controls {
                Some(c) => Some(c.sought(pos)),
                None => None,
            },
            ..self
        }
    }

    /// The chapter that plays.
    pub open spec fn chapter(self) -> Option<usize> {
        match self.current {
            Some(b) => chapter_of(b.meta.chapters, self.position()),
            None => None,
        }
    }

    /// The number of the chapter that plays, or the first.
    pub open spec fn chapter_or_first(self) -> usize {
        match self.chapter() {
            Some(i) => i,
            None => 0,
        }
    }

    /// Why there is no chapter with this number to go to, if there is none.
    pub open spec fn no_chapter(self, index: int) -> Option<EngineError> {
        match self.current {
            None => Some(EngineError::NoBook),
            Some(b) => if 0 <= index < b.meta.chapters.len() {
                None
            } else {
                Some(EngineError::NoSuchChapter)
            },
        }
    }

    /// The engine at the start of a chapter, or unchanged where there is no such
    /// chapter.
    pub open spec fn at_chapter(self, index: int) -> EngineView {
        if self.no_chapter(index) is Some {
            self
        } else {
            self.sought(self.current->Some_0.meta.chapters[index].start)
        }
    }

    /// The engine with a book loaded: paused, at its beginning, at the chosen
    /// speed.
    pub open spec fn loaded(self, path: Seq<char>, meta: MetaView, rate: u32) -> EngineView {
        EngineView {
            current: Some(LoadedView { path, meta }),
            controls: Some(
                ControlsView {
                    input_rate: rate,
                    position_frames: 0,
                    speed_bits: kept_speed(self.speed_bits),
                    seek_frames: None,
                },
            ),
            speed_bits: self.speed_bits,
            paused: true,
            loads: self.loads.wrapping_add(1),
        }
    }
}

/// What comes of going to a chapter.
pub open spec fn chapter_sought(before: EngineView, index: int, after: EngineView, r: Result<(), EngineError>) -> bool {
    &&& after == before.at_chapter(index)
    &&& r == match before.no_chapter(index) {
        Some(e) => Err::<(), EngineError>(e),
        None => Ok::<(), EngineError>(()),
    }
}

impl PlaybackEngine {
    /// An engine with no book loaded, paused.
    pub fn new() -> (r: PlaybackEngine)
        ensures
            r@ == (EngineView {
                current: None,
                controls: None,
                speed_bits: NORMAL_SPEED_BITS,
                paused: true,
                loads: 0,
            }),
    {
        PlaybackEngine { current: None, controls: None, speed_bits: NORMAL_SPEED_BITS, paused: true, loads: 0 }
    }

    /// The one segment of a single-file book: its file, and how long it is.
    pub fn load_path(path: &str, meta: &BookMeta) -> (r: Vec<(String, Duration)>)
        ensures
            views(r@) == seq![(path@, meta@.length())],
    {
        let segment = (path.to_owned(), meta.length());
        let mut r: Vec<(String, Duration)> = Vec::new();
        r.push(segment);
        assert(views(r@) =~= seq![(path@, meta@.length())]);
        r
    }

    /// Take over a book whose source plays at `rate` frames per second, with
    /// its metadata (chapters used for navigation). Replaces anything playing
    /// and starts paused.
    pub fn load(&mut self, path: String, meta: BookMeta, rate: u32)
        requires
            rate > 0,
        ensures
            final(self)@ == old(self)@.loaded(path@, meta@, rate),
    {
        let mut controls = Controls::new(rate);
        controls.set_speed(self.speed_bits);
        self.controls = Some(controls);
        self.current = Some(LoadedBook { path, meta });
        self.paused = true;
        self.loads = self.loads.wrapping_add(1);
    }

    /// The book that is loaded.
    pub fn current(&self) -> (r: Option<&LoadedBook>)
        ensures
            match r {
                Some(b) => self@.current == Some(b@),
                None => self@.current is None,
            },
    {
        match &self.current {
            Some(b) => Some(b),
            None => None,
        }
    }

    /// Tells the book that is loaded from those before it.
    pub fn loads(&self) -> (r: u64)
        ensures
            r == self@.loads,
    {
        self.loads
    }

    /// Play.
    pub fn play(&mut self)
        ensures
            final(self)@ == (EngineView { paused: false, ..old(self)@ }),
    {
        self.paused = false;
    }

    /// Pause.
    pub fn pause(&mut self)
        ensures
            final(self)@ == (EngineView { paused: true, ..old(self)@ }),
    {
        self.paused = true;
    }

    /// Whether nothing plays.
    pub fn is_paused(&self) -> (r: bool)
        ensures
            r == self@.paused,
    {
        self.paused
    }

    /// Play if paused, pause if playing.
    pub fn toggle(&mut self)
        ensures
            final(self)@ == (EngineView { paused: !old(self)@.paused, ..old(self)@ }),
    {
        self.paused = !self.paused;
    }

    /// Current playback position from the start of the book.
    pub fn position(&self) -> (r: Duration)
        ensures
            r@ == self@.position(),
    {
        match &self.controls {
            Some(c) => c.position(),
            None => Duration::zero(),
        }
    }

    /// Seek to an absolute position within the book.
    pub fn seek(&mut self, pos: Duration)
        ensures
            final(self)@ == old(self)@.sought(pos@),
    {
        match self.controls.take() {
            Some(c) => {
                let mut c = c;
                c.request_seek(pos);
                self.controls = Some(c);
            },
            None => {},
        }
    }

    /// Seek relative to the current position (negative to rewind), clamped to 0.
    pub fn seek_relative(&mut self, delta: i64)
        ensures
            final(self)@ == old(self)@.sought(shifted(old(self)@.position(), delta as int)),
    {
        let cur: u128 = self.position().as_nanos();
        let target: i128 = cur as i128 + delta as i128 * NANOS_PER_SEC as i128;
        let nanos: u128 = if target < 0 { 0 } else { target as u128 };
        self.seek(Duration::from_nanos_saturating(nanos));
    }

    /// Index of the chapter currently playing, if any.
    pub fn current_chapter(&self) -> (r: Option<usize>)
        ensures
            r == self@.chapter(),
    {
        match &self.current {
            Some(b) => {
                let pos = self.position();
                meta::chapter_at(b.meta.chapters.as_slice(), pos)
            },
            None => None,
        }
    }

    /// Jump to the start of a chapter by index.
    pub fn seek_chapter(&mut self, index: usize) -> (r: Result<(), EngineError>)
        ensures
            chapter_sought(old(self)@, index as int, final(self)@, r),
    {
        let start: Duration;
        match &self.current {
            None => {
                return Err(EngineError::NoBook);
            },
            Some(b) => {
                assert(b@.meta.chapters.len() == b.meta.chapters.len());
                if index >= b.meta.chapters.len() {
                    return Err(EngineError::NoSuchChapter);
                }
                assert(b@.meta.chapters[index as int] == b.meta.chapters@[index as int]@);
                start = b.meta.chapters[index].start;
            },
        }
        self.seek(start);
        Ok(())
    }

    /// Jump to the start of the next chapter.
    pub fn next_chapter(&mut self) -> (r: Result<(), EngineError>)
        ensures
            chapter_sought(old(self)@, old(self)@.chapter_or_first() + 1, final(self)@, r),
    {
        let cur: usize = match self.current_chapter() {
            Some(i) => i,
            None => 0,
        };
        if cur == usize::MAX {
            match &self.current {
                Some(b) => {
                    assert(b@.meta.chapters.len() == b.meta.chapters.len());
                    return Err(EngineError::NoSuchChapter);
                },
                None => {
                    return Err(EngineError::NoBook);
                },
            }
        }
        self.seek_chapter(cur + 1)
    }

    /// Jump to the start of the chapter before.
    pub fn prev_chapter(&mut self) -> (r: Result<(), EngineError>)
        ensures
            chapter_sought(
                old(self)@,
                if old(self)@.chapter_or_first() > 0 {
                    old(self)@.chapter_or_first() - 1
                } else {
                    0
                },
                final(self)@,
                r,
            ),
    {
        let cur: usize = match self.current_chapter() {
            Some(i) => i,
            None => 0,
        };
        self.seek_chapter(if cur > 0 { cur - 1 } else { 0 })
    }

    /// Choose the playback speed, as the bits of a 32-bit float (1.0 is normal),
    /// pitch-preserving.
    pub fn set_speed(&mut self, bits: u32)
        ensures
            final(self)@ == (EngineView {
                speed_bits: bits,
                controls: match old(self)@.controls {
                    Some(c) => Some(ControlsView { speed_bits: kept_speed(bits), ..c }),
                    None => None,
                },
                ..old(self)@
            }),
    {
        self.speed_bits = bits;
        match self.controls.take() {
            Some(c) => {
                let mut c = c;
                c.set_speed(bits);
                self.controls = Some(c);
            },
            None => {},
        }
    }

    /// The chosen speed, as the bits of a 32-bit float.
    pub fn speed(&self) -> (bits: u32)
        ensures
            bits == self@.speed_bits,
    {
        self.speed_bits
    }

    /// The speed at which the book's source is to play, as the bits of a 32-bit
    /// float.
    pub fn source_speed(&self, load: u64) -> (r: Option<u32>)
        ensures
            r == if load == self@.loads && self@.controls is Some {
                Some(self@.controls->Some_0.speed_bits)
            } else {
                None::<u32>
            },
    {
        if load != self.loads {
            return None;
        }
        match &self.controls {
            Some(c) => Some(c.speed()),
            None => None,
        }
    }

    /// Take the seek that was asked of a book's source, and go there: the frame,
    /// and when it begins. A source of a book that is no longer loaded is asked
    /// nothing.
    pub fn take_seek(&mut self, load: u64) -> (r: Option<(u64, Duration)>)
        ensures
            match r {
                Some((frame, time)) => {
                    &&& load == old(self)@.loads
                    &&& old(self)@.controls matches Some(c)
                    &&& c.seek_frames == Some(frame)
                    &&& time@ == source::time_of_frame(frame, c.input_rate)
                    &&& final(self)@ == (EngineView {
                        controls: Some(ControlsView { seek_frames: None, position_frames: frame, ..c }),
                        ..old(self)@
                    })
                },
                None => {
                    &&& final(self)@ == old(self)@
                    &&& load != old(self)@.loads || old(self)@.controls is None
                        || old(self)@.controls->Some_0.seek_frames is None
                },
            },
    {
        if load != self.loads {
            return None;
        }
        match self.controls.take() {
            Some(c) => {
                let mut c = c;
                let taken = c.take_seek();
                let mut r: Option<(u64, Duration)> = None;
                match taken {
                    Some(frame) => {
                        c.arrive(frame);
                        r = Some((frame, source::frame_time(frame, c.input_rate())));
                    },
                    None => {},
                }
                self.controls = Some(c);
                r
            },
            None => None,
        }
    }

    /// Count frames that a book's source has read.
    pub fn advance(&mut self, load: u64, frames: u64)
        ensures
            final(self)@ == if load == old(self)@.loads && old(self)@.controls is Some {
                let c = old(self)@.controls->Some_0;
                EngineView {
                    controls: Some(
                        ControlsView { position_frames: c.position_frames.wrapping_add(frames), ..c },
                    ),
                    ..old(self)@
                }
            } else {
                old(self)@
            },
    {
        if load != self.loads {
            return;
        }
        match self.controls.take() {
            Some(c) => {
                let mut c = c;
                c.advance(frames);
                self.controls = Some(c);
            },
            None => {},
        }
    }
}

/// A book that was just loaded is paused at its beginning, and its source plays
/// at the chosen speed.
pub proof fn loaded_book_waits(e: EngineView, path: Seq<char>, meta: MetaView, rate: u32)
    requires
        rate > 0,
    ensures
        e.loaded(path, meta, rate).paused,
        e.loaded(path, meta, rate).position() == 0,
        e.loaded(path, meta, rate).current == Some(LoadedView { path, meta }),
        e.loaded(path, meta, rate).controls->Some_0.speed_bits == kept_speed(e.speed_bits),
{
    assert(0nat * NANOS_PER_SEC as nat == 0);
    assert(0nat / rate as nat == 0 && 0nat % rate as nat == 0) by {
        vstd::arithmetic::div_mod::lemma_div_basics(rate as int);
        vstd::arithmetic::div_mod::lemma_small_mod(0, rate as nat);
    }
}

/// Going to a chapter brings the position to where the chapter starts, to within
/// one frame.
pub proof fn chapter_start_is_reached(e: EngineView, index: int)
    requires
        e.no_chapter(index) is None,
        e.controls is Some,
        e.controls->Some_0.input_rate > 0,
        e.current->Some_0.meta.chapters[index].start * e.controls->Some_0.input_rate as nat / NANOS_PER_SEC as nat
            <= i64::MAX,
    ensures
        ({
            let start = e.current->Some_0.meta.chapters[index].start;
            let pos = e.at_chapter(index).position();
            let rate = e.controls->Some_0.input_rate;
            &&& pos <= start
            &&& (start - pos) * rate < NANOS_PER_SEC + rate
        }),
{
    source::seek_is_seen(e.controls->Some_0, e.current->Some_0.meta.chapters[index].start);
}

} // verus!
