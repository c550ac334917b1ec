//! Opening a book: from the library into the engine, step by step.

use vstd::prelude::*;

use crate::app::{since, Moment, MomentView, PlayerApp, PlayerView, Screen, Sleep, SleepView};
use crate::audio::{EngineView, PlaybackEngine};
use crate::library::db::DbError;
use crate::library::tables::{track_key, DatabaseView, NORMAL_SPEED_BITS};
use crate::library::{
    copy_cover, copy_text, views, Book, BookMeta, BookView, Chapter, ChapterView, MetaView, Track, TrackView,
};
use crate::order::listing;
use crate::time::{Duration, NANOS_PER_SEC};

verus! {

broadcast use crate::library::db::group_records;

/// On resume, step back a few seconds so you re-hear context.
pub const RESUME_REWIND_SECS: u64 = 8;

/// What opening a book asks for.
#[derive(Debug)]
pub enum Opening {
    /// Nothing more.
    Settled,
    /// An engine, and then this book loaded into it.
    Wanted(Book),
}

/// Where the files of a book come from.
#[derive(Debug)]
pub enum Loading {
    /// There is nothing to load.
    Settled,
    /// The book is one file, whose own metadata and chapters count.
    Single,
    /// The book is these files, one after the other.
    Multi { files: Vec<(String, Duration)>, meta: BookMeta },
}

/// The tracks of a book as files to play.
pub open spec fn files_of(tracks: Seq<TrackView>) -> Seq<(Seq<char>, nat)> {
    tracks.map_values(|t: TrackView| (t.path, t.duration))
}

/// The tracks of a book as its chapters.
pub open spec fn chapters_of(tracks: Seq<TrackView>) -> Seq<ChapterView> {
    tracks.map_values(|t: TrackView| ChapterView { index: t.idx, title: t.title, start: t.start })
}

/// What is known of a multi-file book when it is played.
pub open spec fn multi_meta(book: BookView, tracks: Seq<TrackView>) -> MetaView {
    MetaView {
        title: Some(book.title),
        author: book.author,
        reader: book.reader,
        album: None,
        file_name: None,
        duration: Some(book.duration),
        chapters: chapters_of(tracks),
        cover: book.cover,
    }
}

/// The tracks of a book in their order.
pub open spec fn tracks_of(db: DatabaseView, id: i64) -> Seq<TrackView> {
    listing(db.tracks_in(id), |t: TrackView| track_key(t))
}

impl PlayerView {
    /// Whether a book is the one that is loaded.
    pub open spec fn is_loaded(self, id: i64) -> bool {
        self.current_book_id == Some(id) && self.loaded() is Some
    }

    /// The player as opening a book leaves it at first. The book that is loaded
    /// already is just shown: loading it again would stop playback.
    pub open spec fn opening(self, id: i64) -> PlayerView {
        if self.is_loaded(id) {
            PlayerView { screen: Screen::Player, status: Seq::empty(), ..self }
        } else if self.db.book(id) is None {
            PlayerView { status: "That book is no longer in the library."@, ..self }
        } else {
            self
        }
    }

    /// The player with a book loaded and shown, where it was left off, a few
    /// seconds earlier.
    pub open spec fn opened(self, book: BookView, meta: MetaView, rate: u32, at: MomentView) -> PlayerView {
        let resume = since(book.position, RESUME_REWIND_SECS as nat * NANOS_PER_SEC as nat);
        let engine = self.engine->Some_0.loaded(book.path, meta, rate);
        let engine = if resume > 0 {
            engine.sought(resume)
        } else {
            engine
        };
        PlayerView {
            engine: Some(
                EngineView {
                    speed_bits: NORMAL_SPEED_BITS,
                    controls: Some(
                        crate::audio::source::ControlsView {
                            speed_bits: crate::audio::source::kept_speed(NORMAL_SPEED_BITS),
                            ..engine.controls->Some_0
                        },
                    ),
                    ..engine
                },
            ),
            current_book_id: Some(book.id),
            last_pos: None,
            history_pushed: false,
            sleep: SleepView::Off,
            last_save: at.tick,
            last_mpris_playing: None,
            screen: Screen::Player,
            status: Seq::empty(),
            ..self
        }.with_bookmarks(book.id).with_entry_of(book)
    }
}

impl PlayerView {
    /// The player with a file in its library that was read at a time.
    pub open spec fn with_file(self, path: Seq<char>, meta: MetaView, stamp: i64) -> PlayerView {
        self.with_db(self.db.put_book(path, meta, meta.chapters.len() as usize, false, stamp)).with_books()
    }
}

impl PlayerApp {
    /// Whether a book is loaded.
    pub fn has_loaded(&self) -> (r: bool)
        ensures
            r == (self@.loaded() is Some),
    {
        match &self.engine {
            Some(e) => e.current().is_some(),
            None => false,
        }
    }

    /// Whether a book is being played.
    pub fn is_playing(&self) -> (r: bool)
        ensures
            r == self@.is_playing(),
    {
        match &self.engine {
            Some(e) => e.current().is_some() && !e.is_paused(),
            None => false,
        }
    }

    /// Load a library book, resuming where we left off: the first step. The
    /// book that is loaded already is just shown and keeps playing.
    pub fn open_book(&mut self, id: i64) -> (r: Opening)
        requires
            old(self).wf(),
        ensures
            final(self).wf(),
            final(self).records(*old(self)),
            final(self)@ == old(self)@.opening(id),
            match r {
                Opening::Settled => old(self)@.is_loaded(id) || old(self)@.db.book(id) is None,
                Opening::Wanted(book) => !old(self)@.is_loaded(id) && old(self)@.db.book(id) == Some(book@),
            },
    {
        let same = match self.current_book_id {
            Some(c) => c == id,
            None => false,
        };
        if same && self.has_loaded() {
            self.screen = Screen::Player;
            self.status = String::new();
            assert(self.status@ =~= Seq::empty());
            return Opening::Settled;
        }
        match self.book(id) {
            Some(book) => Opening::Wanted(book),
            None => {
                self.status = "That book is no longer in the library.".to_owned();
                Opening::Settled
            },
        }
    }

    /// There is a device to play on.
    pub fn engine_ready(&mut self)
        requires
            old(self).wf(),
        ensures
            final(self).wf(),
            final(self).records(*old(self)),
            final(self)@ == (PlayerView {
                engine: match old(self)@.engine {
                    Some(e) => Some(e),
                    None => Some(
                        EngineView {
                            current: None,
                            controls: None,
                            speed_bits: NORMAL_SPEED_BITS,
                            paused: true,
                            loads: 0,
                        },
                    ),
                },
                ..old(self)@
            }),
    {
        if self.engine.is_none() {
            self.engine = Some(PlaybackEngine::new());
        }
    }

    /// There is no device to play on.
    pub fn engine_failed(&mut self, error: &str)
        requires
            old(self).wf(),
        ensures
            final(self).wf(),
            final(self).records(*old(self)),
            final(self)@ == (PlayerView { status: "Audio error: "@ + error@, ..old(self)@ }),
    {
        let mut status = "Audio error: ".to_owned();
        status.append(error);
        self.status = status;
    }

    /// Where the files of a book come from. A multi-file book without tracks
    /// has none.
    pub fn load_request(&mut self, book: &Book) -> (r: Loading)
        requires
            old(self).wf(),
        ensures
            final(self).wf(),
            final(self).records(*old(self)),
            match r {
                Loading::Settled => {
                    &&& book@.is_multi && tracks_of(old(self)@.db, book@.id).len() == 0
                    &&& final(self)@ == (PlayerView { status: "This book has no tracks."@, ..old(self)@ })
                },
                Loading::Single => !book@.is_multi && final(self)@ == old(self)@,
                Loading::Multi { files, meta } => {
                    let tracks = tracks_of(old(self)@.db, book@.id);
                    &&& book@.is_multi && tracks.len() > 0
                    &&& views(files@) == files_of(tracks)
                    &&& meta@ == multi_meta(book@, tracks)
                    &&& final(self)@ == old(self)@
                },
            },
    {
        if !book.is_multi {
            return Loading::Single;
        }
        let tracks: Vec<Track> = match self.db.tracks(book.id) {
            Ok(t) => t,
            Err(_) => Vec::new(),
        };
        assert(views(tracks@).len() == tracks.len());
        if tracks.len() == 0 {
            self.status = "This book has no tracks.".to_owned();
            return Loading::Settled;
        }
        let mut files: Vec<(String, Duration)> = Vec::new();
        let mut chapters: Vec<Chapter> = Vec::new();
        let mut i: usize = 0;
        while i < tracks.len()
            invariant
                i <= tracks.len(),
                files.len() == i,
                chapters.len() == i,
                forall|k: int| 0 <= k < i ==> (#[trigger] files@[k])@ == (tracks@[k]@.path, tracks@[k]@.duration),
                forall|k: int|
                    0 <= k < i ==> (#[trigger] chapters@[k])@ == (ChapterView {
                        index: tracks@[k]@.idx,
                        title: tracks@[k]@.title,
                        start: tracks@[k]@.start,
                    }),
            decreases tracks.len() - i,
        {
            files.push((tracks[i].path.clone(), tracks[i].duration));
            chapters.push(Chapter { index: tracks[i].idx, title: tracks[i].title.clone(), start: tracks[i].start });
            i = i + 1;
        }
        let meta = BookMeta {
            title: Some(book.title.clone()),
            author: copy_text(&book.author),
            reader: copy_text(&book.reader),
            album: None,
            file_name: None,
            duration: Some(book.duration),
            chapters,
            cover: copy_cover(&book.cover),
        };
        proof {
            assert(views(files@) =~= files_of(views(tracks@)));
            assert(views(chapters@) =~= chapters_of(views(tracks@)));
        }
        Loading::Multi { files, meta }
    }

    /// A book could not be loaded.
    pub fn load_failed(&mut self, book: &Book, error: &str)
        requires
            old(self).wf(),
        ensures
            final(self).wf(),
            final(self).records(*old(self)),
            final(self)@ == (PlayerView {
                status: "Could not open "@ + book@.path + ": "@ + error@,
                ..old(self)@
            }),
    {
        let mut status = "Could not open ".to_owned();
        status.append(book.path.as_str());
        status.append(": ");
        status.append(error);
        self.status = status;
    }

    /// A book was loaded, and its source plays at `rate` frames per second:
    /// resume, rewound a little for context.
    pub fn finish_open(&mut self, book: &Book, meta: BookMeta, rate: u32, at: Moment)
        requires
            old(self).wf(),
            old(self)@.engine is Some,
            rate > 0,
        ensures
            final(self).wf(),
            final(self).records(*old(self)),
            final(self)@ == old(self)@.opened(book@, meta@, rate, at@),
    {
        let ghost before = self@;
        match self.engine.take() {
            Some(e) => {
                let mut engine = e;
                engine.load(book.path.clone(), meta, rate);
                let resume = book.position.saturating_sub(&Duration::from_secs(RESUME_REWIND_SECS));
                if Duration::zero().shorter_than(&resume) {
                    engine.seek(resume);
                }
                engine.set_speed(NORMAL_SPEED_BITS);
                self.engine = Some(engine);
            },
            None => {},
        }
        self.current_book_id = Some(book.id);
        self.last_pos = None;
        self.refresh_bookmarks(book.id);
        self.load_current_history(book);
        self.history_pushed = false;
        self.sleep = Sleep::Off;
        self.last_save = at.tick;
        self.last_mpris_playing = None;
        self.screen = Screen::Player;
        self.status = String::new();
        assert(self.status@ =~= Seq::empty());
        assert(self@ =~= before.opened(book@, meta@, rate, at@));
    }

    /// A single file was read, or could not be (ad-hoc "Open file…"): import it
    /// then open it.
    pub fn open_file(&mut self, path: &str, read: Result<BookMeta, String>, stamp: i64) -> (r: Opening)
        requires
            old(self).wf(),
        ensures
            final(self).wf(),
            final(self).records(*old(self)),
            match read {
                Err(e) => r is Settled && final(self)@ == (PlayerView {
                    status: "Could not open: "@ + e@,
                    ..old(self)@
                }),
                Ok(meta) => if old(self)@.db.can_put_book(path@) {
                    let id = old(self)@.db.id_for_path(path@);
                    let put = old(self)@.with_file(path@, meta@, stamp);
                    &&& final(self)@ == put.opening(id)
                    &&& match r {
                        Opening::Settled => put.is_loaded(id) || put.db.book(id) is None,
                        Opening::Wanted(book) => !put.is_loaded(id) && put.db.book(id) == Some(book@),
                    }
                } else {
                    r is Settled && final(self)@ == (PlayerView {
                        status: "Could not open: "@ + DbError::Full.text(),
                        ..old(self)@
                    })
                },
            },
    {
        let error: String;
        match read {
            Ok(meta) => match self.db.upsert_book_at(path, &meta, stamp) {
                Ok(id) => {
                    self.refresh_books();
                    return self.open_book(id);
                },
                Err(e) => {
                    error = e.message();
                },
            },
            Err(e) => {
                error = e;
            },
        }
        let mut status = "Could not open: ".to_owned();
        status.append(error.as_str());
        self.status = status;
        Opening::Settled
    }
}

} // verus!
