//! What the desktop asks of the player and is told by it.

use vstd::prelude::*;

use crate::app::{since, PlayerApp, PlayerView};
use crate::audio::{shifted, EngineView};
use crate::library::{text_of, views};
use crate::mpris::{MprisCommand, MprisUpdate, NowPlaying, NowPlayingView, UpdateView};
use crate::time::{Duration, NANOS_PER_SEC};

verus! {

broadcast use crate::library::db::group_records;

impl PlayerView {
    /// The player after the desktop asked for something. Without an engine there
    /// is nothing to control.
    pub open spec fn commanded(self, command: MprisCommand) -> PlayerView {
        match self.engine {
            None => self,
            Some(e) => PlayerView {
                engine: Some(
                    match command {
                        MprisCommand::Raise => e,
                        MprisCommand::PlayPause => EngineView { paused: !e.paused, ..e },
                        MprisCommand::Play => EngineView { paused: false, ..e },
                        MprisCommand::Pause => EngineView { paused: true, ..e },
                        MprisCommand::Stop => EngineView { paused: true, ..e },
                        MprisCommand::Next => e.at_chapter(e.chapter_or_first() + 1),
                        MprisCommand::Prev => e.at_chapter(
                            if e.chapter_or_first() > 0 {
                                e.chapter_or_first() - 1
                            } else {
                                0
                            },
                        ),
                        MprisCommand::SeekBy(secs) => e.sought(shifted(e.position(), secs as int)),
                        MprisCommand::SeekTo(secs) => e.sought(
                            if secs > 0 {
                                (secs * NANOS_PER_SEC) as nat
                            } else {
                                0
                            },
                        ),
                    },
                ),
                ..self
            },
        }
    }

    /// Whether the desktop is to be told whether a book plays.
    pub open spec fn status_is_news(self) -> bool {
        self.last_mpris_playing != Some(self.is_playing())
    }

    /// Whether the desktop is to be told the position: about once a second while
    /// playing.
    pub open spec fn position_is_news(self, tick: nat) -> bool {
        self.is_playing() && since(tick, self.last_pos_push) >= NANOS_PER_SEC
    }

    /// The player after the desktop was told.
    pub open spec fn told(self, tick: nat) -> PlayerView {
        PlayerView {
            last_mpris_playing: Some(self.is_playing()),
            last_pos_push: if self.position_is_news(tick) {
                tick
            } else {
                self.last_pos_push
            },
            ..self
        }
    }

    /// What the desktop is to be told.
    pub open spec fn news(self, tick: nat) -> Seq<UpdateView> {
        (if self.status_is_news() {
            seq![UpdateView::Status { playing: self.is_playing() }]
        } else {
            Seq::empty()
        }) + (if self.position_is_news(tick) {
            seq![UpdateView::Position(self.engine->Some_0.position())]
        } else {
            Seq::empty()
        })
    }
}

impl PlayerApp {
    /// Process a desktop media-key command. Tells whether the window is to be
    /// raised.
    pub fn command(&mut self, command: MprisCommand) -> (raise: bool)
        requires
            old(self).wf(),
        ensures
            final(self).wf(),
            final(self).records(*old(self)),
            final(self)@ == old(self)@.commanded(command),
            raise == (command == MprisCommand::Raise),
    {
        match self.engine.take() {
            Some(e) => {
                let mut engine = e;
                match command {
                    MprisCommand::Raise => {},
                    MprisCommand::PlayPause => {
                        engine.toggle();
                    },
                    MprisCommand::Play => {
                        engine.play();
                    },
                    MprisCommand::Pause | MprisCommand::Stop => {
                        engine.pause();
                    },
                    MprisCommand::Next => {
                        let _ = engine.next_chapter();
                    },
                    MprisCommand::Prev => {
                        let _ = engine.prev_chapter();
                    },
                    MprisCommand::SeekBy(secs) => {
                        engine.seek_relative(secs);
                    },
                    MprisCommand::SeekTo(secs) => {
                        let to: u64 = if secs > 0 { secs as u64 } else { 0 };
                        engine.seek(Duration::from_secs(to));
                    },
                }
                self.engine = Some(engine);
            },
            None => {},
        }
        match command {
            MprisCommand::Raise => true,
            _ => false,
        }
    }

    /// What the desktop is to be told: whether a book plays, when that changes,
    /// and from time to time the position.
    pub fn sync_mpris(&mut self, now: Duration) -> (r: Vec<MprisUpdate>)
        requires
            old(self).wf(),
        ensures
            final(self).wf(),
            final(self).records(*old(self)),
            views(r@) == old(self)@.news(now@),
            final(self)@ == old(self)@.told(now@),
    {
        let ghost before = self@;
        let mut out: Vec<MprisUpdate> = Vec::new();
        let playing = self.is_playing();
        let news = match self.last_mpris_playing {
            Some(p) => p != playing,
            None => true,
        };
        if news {
            out.push(MprisUpdate::Status { playing });
            self.last_mpris_playing = Some(playing);
        }
        let waited = now.saturating_sub(&self.last_pos_push);
        if playing && Duration::from_secs(1).at_most(&waited) {
            match &self.engine {
                Some(e) => {
                    out.push(MprisUpdate::Position(e.position()));
                },
                None => {},
            }
            self.last_pos_push = now;
        }
        assert(views(out@) =~= before.news(now@));
        out
    }

    /// The current book's now-playing metadata for the desktop, with the address
    /// of its cover.
    pub fn now_playing(&self, art_url: Option<String>) -> (r: Option<NowPlaying>)
        ensures
            match r {
                None => self@.loaded() is None,
                Some(n) => {
                    &&& self@.loaded() matches Some(b)
                    &&& n@ == (NowPlayingView {
                        title: b.meta.display_title(),
                        artist: match b.meta.author {
                            Some(a) => a,
                            None => Seq::empty(),
                        },
                        album: match b.meta.album {
                            Some(a) => a,
                            None => Seq::empty(),
                        },
                        length: b.meta.length(),
                        position: self@.engine->Some_0.position(),
                        art_url: text_of(art_url),
                    })
                },
            },
    {
        match &self.engine {
            Some(e) => match e.current() {
                Some(b) => {
                    let n = NowPlaying {
                        title: b.meta.display_title().to_owned(),
                        artist: match &b.meta.author {
                            Some(a) => a.clone(),
                            None => String::new(),
                        },
                        album: match &b.meta.album {
                            Some(a) => a.clone(),
                            None => String::new(),
                        },
                        length: b.meta.length(),
                        position: e.position(),
                        art_url,
                    };
                    assert(n@.artist =~= match b@.meta.author {
                        Some(a) => a,
                        None => Seq::empty(),
                    });
                    assert(n@.album =~= match b@.meta.album {
                        Some(a) => a,
                        None => Seq::empty(),
                    });
                    Some(n)
                },
                None => None,
            },
            None => None,
        }
    }
}

} // verus!
