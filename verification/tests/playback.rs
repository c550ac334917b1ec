use some_audiobook_player::audio::source::{
    chunk_samples, frame_time, frames_read, keep_speed, time_frame, Controls, Emit, FeedAction, MultiFeed, Output,
};
use some_audiobook_player::audio::{EngineError, PlaybackEngine};
use some_audiobook_player::library::{BookMeta, Chapter};
use some_audiobook_player::time::{fmt_hms, Duration};

fn secs(s: u64) -> Duration {
    Duration::from_secs(s)
}

fn book() -> BookMeta {
    let ch = |i: usize, s: u64| Chapter { index: i, title: format!("Chapter {i}"), start: secs(s) };
    BookMeta {
        title: Some("T".into()),
        duration: Some(secs(300)),
        chapters: vec![ch(0, 0), ch(1, 100), ch(2, 200)],
        ..BookMeta::default()
    }
}

#[test]
fn frames_and_times() {
    assert_eq!(frame_time(44_100, 44_100), secs(1));
    assert_eq!(frame_time(1, 44_100), Duration::new(0, 22_676));
    assert_eq!(frame_time(3, 44_100), Duration::new(0, 68_027));
    assert_eq!(frame_time(1, 2_000_000_000), Duration::zero());
    assert_eq!(frame_time(3, 2_000_000_000), Duration::new(0, 2));
    assert_eq!(time_frame(secs(2), 48_000), 96_000);
    assert_eq!(time_frame(Duration::new(0, 22_675), 44_100), 0);
    assert_eq!(time_frame(Duration::new(0, 22_676), 44_100), 1);
    assert_eq!(time_frame(secs(u64::MAX), 48_000), i64::MAX as u64);
}

#[test]
fn frames_and_times_agree_with_floats() {
    for frames in [0u64, 1, 2, 3, 7, 44_099, 44_100, 1_000_001, 158_760_000] {
        for rate in [8_000u32, 22_050, 44_100, 48_000] {
            let exact = frame_time(frames, rate);
            let float = std::time::Duration::from_secs_f64(frames as f64 / rate as f64);
            assert_eq!(exact.as_nanos(), float.as_nanos(), "{frames} at {rate}");
        }
    }
}

#[test]
fn a_seek_is_seen_at_once() {
    let mut c = Controls::new(44_100);
    assert_eq!(c.position(), Duration::zero());
    assert_eq!(c.take_seek(), None);
    c.request_seek(secs(10));
    assert_eq!(c.position(), secs(10));
    assert_eq!(c.take_seek(), Some(441_000));
    assert_eq!(c.take_seek(), None);
    assert_eq!(c.position(), secs(10));
    c.arrive(441_000);
    c.advance(44_100);
    assert_eq!(c.position(), secs(11));
    assert_eq!(c.input_rate(), 44_100);
}

#[test]
fn speed_is_kept_in_range() {
    let kept = |s: f32| f32::from_bits(keep_speed(s.to_bits()));
    for s in [-1.0f32, -0.0, 0.0, 0.1, 0.25, 0.5, 1.0, 1.75, 4.0, 4.5, f32::INFINITY, f32::NEG_INFINITY] {
        assert_eq!(kept(s), s.clamp(0.25, 4.0), "{s}");
    }
    assert!(kept(f32::NAN).is_nan());
    let mut c = Controls::new(8_000);
    assert_eq!(f32::from_bits(c.speed()), 1.0);
    c.set_speed(9.0f32.to_bits());
    assert_eq!(f32::from_bits(c.speed()), 4.0);
}

#[test]
fn files_are_played_one_after_the_other() {
    assert!(MultiFeed::open(&Vec::new()).is_none());
    let mut f = MultiFeed::open(&vec![secs(10), secs(20), secs(30)]).unwrap();
    assert_eq!(f.total(), secs(60));
    assert_eq!(f.action(), FeedAction::Pull);
    f.pulled(true);
    assert_eq!(f.action(), FeedAction::Pull);
    f.pulled(false);
    assert_eq!(f.action(), FeedAction::Open(1));
    // A file that cannot be opened is skipped.
    f.opened(false);
    assert_eq!(f.action(), FeedAction::Open(2));
    f.opened(true);
    assert_eq!(f.action(), FeedAction::Pull);
    f.pulled(false);
    assert_eq!(f.action(), FeedAction::End);
}

#[test]
fn a_source_that_has_ended_stays_ended() {
    let mut e = PlaybackEngine::new();
    e.load("/a".into(), book(), 48_000);
    let mut out = Output::new();
    assert_eq!(out.ask(), Emit::Refill);
    out.filled(0, true);
    assert_eq!(out.ask(), Emit::Done);
    e.seek(secs(1));
    assert_eq!(out.ask(), Emit::Done);
    let mut empty = Output::new();
    empty.filled(0, false);
    assert_eq!(empty.ask(), Emit::Done);
}

/// What a feed plays of these files, until it has ended and a little longer.
fn played(files: &[Option<Vec<i16>>]) -> Vec<Option<i16>> {
    let mut feed = MultiFeed::open(&files.iter().map(|_| secs(1)).collect()).unwrap();
    let mut left = files[0].clone().unwrap();
    let mut out: Vec<Option<i16>> = Vec::new();
    while out.len() < 3 || out[out.len() - 3..].iter().any(|s| s.is_some()) {
        match feed.action() {
            FeedAction::End => out.push(None),
            FeedAction::Open(i) => {
                feed.opened(files[i].is_some());
                left = files[i].clone().unwrap_or_default();
            }
            FeedAction::Pull => {
                let got = if left.is_empty() { None } else { Some(left.remove(0)) };
                feed.pulled(got.is_some());
                if got.is_some() {
                    out.push(got);
                }
            }
        }
    }
    out
}

#[test]
fn a_book_plays_through_all_its_files() {
    let files = vec![Some(vec![1, 2]), None, Some(vec![]), Some(vec![3]), None, Some(vec![4, 5]), None];
    let whole = played(&files);
    assert_eq!(whole, vec![Some(1), Some(2), Some(3), Some(4), Some(5), None, None, None]);
    let sounding: Vec<Option<Vec<i16>>> = files.into_iter().filter(|f| f.as_ref().is_some_and(|s| !s.is_empty())).collect();
    assert_eq!(played(&sounding), whole);
    assert_eq!(played(&[Some(vec![])]), vec![None, None, None]);
}

#[test]
fn a_seek_finds_the_file() {
    let mut f = MultiFeed::open(&vec![secs(10), secs(20), secs(30)]).unwrap();
    assert_eq!(f.seek_global(secs(0)), (0, secs(0)));
    assert_eq!(f.seek_global(secs(9)), (0, secs(9)));
    assert_eq!(f.seek_global(secs(10)), (1, secs(0)));
    assert_eq!(f.seek_global(secs(31)), (2, secs(1)));
    assert_eq!(f.seek_global(secs(99)), (2, secs(69)));
    assert_eq!(f.action(), FeedAction::Open(2));
}

#[test]
fn samples_are_handed_out_and_refilled() {
    let mut out = Output::new();
    assert_eq!(out.ask(), Emit::Refill);
    out.filled(2, false);
    assert_eq!(out.ask(), Emit::Sample(0));
    assert_eq!(out.ask(), Emit::Sample(1));
    assert_eq!(out.ask(), Emit::Refill);
    out.filled(1, true);
    assert_eq!(out.ask(), Emit::Sample(0));
    assert_eq!(out.ask(), Emit::Done);
    assert_eq!(chunk_samples(2), 4096);
    assert_eq!(frames_read(4097, 2), 2048);
    assert_eq!(frames_read(5, 0), 5);
}

#[test]
fn a_loaded_book_waits_at_its_beginning() {
    let mut e = PlaybackEngine::new();
    assert!(e.current().is_none());
    assert!(e.is_paused());
    e.set_speed(2.0f32.to_bits());
    e.load("/a".into(), book(), 48_000);
    assert_eq!(e.current().unwrap().path, "/a");
    assert!(e.is_paused());
    assert_eq!(e.position(), Duration::zero());
    assert_eq!(e.source_speed(e.loads()), Some(2.0f32.to_bits()));
    assert_eq!(e.speed(), 2.0f32.to_bits());
    e.toggle();
    assert!(!e.is_paused());
    e.toggle();
    e.play();
    e.pause();
    assert!(e.is_paused());
    let segments = PlaybackEngine::load_path("/a", &book());
    assert_eq!(segments, vec![("/a".to_string(), secs(300))]);
}

#[test]
fn chapters_are_walked_through() {
    let mut e = PlaybackEngine::new();
    assert_eq!(e.seek_chapter(0), Err(EngineError::NoBook));
    assert_eq!(e.next_chapter(), Err(EngineError::NoBook));
    assert_eq!(EngineError::NoBook.message(), "no book loaded");
    e.load("/a".into(), book(), 48_000);
    assert_eq!(e.current_chapter(), Some(0));
    e.next_chapter().unwrap();
    assert_eq!(e.position(), secs(100));
    e.next_chapter().unwrap();
    assert_eq!(e.current_chapter(), Some(2));
    assert_eq!(e.next_chapter(), Err(EngineError::NoSuchChapter));
    assert_eq!(EngineError::NoSuchChapter.message(), "chapter index out of range");
    e.prev_chapter().unwrap();
    assert_eq!(e.current_chapter(), Some(1));
    e.seek_chapter(0).unwrap();
    e.prev_chapter().unwrap();
    assert_eq!(e.position(), Duration::zero());
}

#[test]
fn seeking_is_absolute_or_relative() {
    let mut e = PlaybackEngine::new();
    e.seek(secs(5));
    assert_eq!(e.position(), Duration::zero());
    e.load("/a".into(), book(), 48_000);
    e.seek(secs(50));
    e.seek_relative(30);
    assert_eq!(e.position(), secs(80));
    e.seek_relative(-30);
    e.seek_relative(-300);
    assert_eq!(e.position(), Duration::zero());
    e.seek(Duration::from_millis(10_500));
    e.seek_relative(5);
    assert_eq!(e.position(), Duration::from_millis(15_500));
    e.seek_relative(-30);
    assert_eq!(e.position(), Duration::zero());
}

#[test]
fn a_source_of_an_earlier_book_is_ignored() {
    let mut e = PlaybackEngine::new();
    e.load("/a".into(), book(), 48_000);
    let first = e.loads();
    e.load("/b".into(), book(), 48_000);
    let second = e.loads();
    e.seek(secs(1));
    assert_eq!(e.take_seek(first), None);
    e.advance(first, 48_000);
    assert_eq!(e.position(), secs(1));
    assert_eq!(e.source_speed(first), None);
    assert_eq!(e.take_seek(second), Some((48_000, secs(1))));
    assert_eq!(e.take_seek(second), None);
    e.advance(second, 48_000);
    assert_eq!(e.position(), secs(2));
}

#[test]
fn spans_of_time() {
    assert_eq!(Duration::new(1, 5).as_nanos(), 1_000_000_005);
    assert_eq!(Duration::from_millis(1500).as_secs(), 1);
    assert_eq!(Duration::from_millis(1500).subsec_nanos(), 500_000_000);
    assert_eq!(Duration::from_millis(1).as_micros(), 1000);
    assert_eq!(secs(1).checked_add(&secs(2)), Some(secs(3)));
    assert_eq!(secs(u64::MAX).checked_add(&secs(1)), None);
    assert_eq!(secs(1).saturating_sub(&secs(2)), Duration::zero());
    assert!(secs(1).at_most(&secs(1)) && !secs(1).shorter_than(&secs(1)) && secs(1).same_as(&secs(1)));
    assert_eq!(Duration::from_nanos_saturating(u128::MAX), Duration::new(u64::MAX, 999_999_999));
    assert_eq!(fmt_hms(0), "0:00:00");
    assert_eq!(fmt_hms(3_661), "1:01:01");
    assert_eq!(fmt_hms(360_000), "100:00:00");
}
