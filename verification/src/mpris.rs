//! What the desktop asks of the player, and what the player tells the desktop
//! (MPRIS: media keys, now-playing metadata, play/pause state).

use vstd::prelude::*;

use crate::library::text_of;
use crate::time::Duration;

verus! {

/// A control request coming from the desktop environment.
#[derive(Debug, Clone, Copy, PartialEq, Eq, Structural)]
pub enum MprisCommand {
    PlayPause,
    Play,
    Pause,
    Stop,
    Next,
    Prev,
    /// Seek by a relative number of seconds (may be negative).
    SeekBy(i64),
    /// Seek to an absolute number of seconds.
    SeekTo(i64),
    Raise,
}

/// Now-playing info pushed to the desktop.
#[derive(Debug)]
pub struct NowPlaying {
    pub title: String,
    pub artist: String,
    pub album: String,
    pub length: Duration,
    pub position: Duration,
    pub art_url: Option<String>,
}

/// What a [`NowPlaying`] holds.
#[verifier::ext_equal]
pub struct NowPlayingView {
    pub title: Seq<char>,
    pub artist: Seq<char>,
    pub album: Seq<char>,
    pub length: nat,
    pub position: nat,
    pub art_url: Option<Seq<char>>,
}

impl View for NowPlaying {
    type V = NowPlayingView;

    open spec fn view(&self) -> NowPlayingView {
        NowPlayingView {
            title: self.title@,
            artist: self.artist@,
            album: self.album@,
            length: self.length@,
            position: self.position@,
            art_url: text_of(self.art_url),
        }
    }
}

/// A status update pushed from the app to the desktop.
#[derive(Debug)]
pub enum MprisUpdate {
    NowPlaying(NowPlaying),
    Status { playing: bool },
    Position(Duration),
}

/// What an [`MprisUpdate`] holds.
#[verifier::ext_equal]
pub enum UpdateView {
    NowPlaying(NowPlayingView),
    Status { playing: bool },
    Position(nat),
}

impl View for MprisUpdate {
    type V = UpdateView;

    open spec fn view(&self) -> UpdateView {
        match self {
            MprisUpdate::NowPlaying(n) => UpdateView::NowPlaying(n@),
            MprisUpdate::Status { playing } => UpdateView::Status { playing: *playing },
            MprisUpdate::Position(p) => UpdateView::Position(p@),
        }
    }
}

/// The lowest 64 bits of a number, as a signed number.
pub open spec fn low_bits(n: nat) -> int {
    let low = n % 0x1_0000_0000_0000_0000;
    if low <= i64::MAX {
        low as int
    } else {
        low - 0x1_0000_0000_0000_0000
    }
}

/// A span in microseconds, as the desktop counts it.
pub fn micros(d: Duration) -> (r: i64)
    ensures
        r == low_bits(d@ / 1000),
        d@ / 1000 <= i64::MAX ==> r == d@ / 1000,
{
    let low: u128 = d.as_micros() % 0x1_0000_0000_0000_0000;
    if low <= i64::MAX as u128 {
        low as i64
    } else {
        (low as i128 - 0x1_0000_0000_0000_0000) as i64
    }
}

/// The name of the file that a cover is shown to the desktop in.
pub open spec fn art_file_of(is_png: bool) -> Seq<char> {
    if is_png {
        "some-audiobook-player-cover.png"@
    } else {
        "some-audiobook-player-cover.jpg"@
    }
}

/// The name of the file that a cover is shown to the desktop in.
pub fn art_file(is_png: bool) -> (r: &'static str)
    ensures
        r@ == art_file_of(is_png),
{
    if is_png {
        "some-audiobook-player-cover.png"
    } else {
        "some-audiobook-player-cover.jpg"
    }
}

/// The address of a file.
pub fn file_url(path: &str) -> (r: String)
    ensures
        r@ == "file://"@ + path@,
{
    let mut url = "file://".to_owned();
    url.append(path);
    url
}

} // verus!
