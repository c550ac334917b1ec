use some_audiobook_player::app::actions::{date_shown, date_written, hit_action, Action, Hit, Request};
use some_audiobook_player::app::open::{Loading, Opening};
use some_audiobook_player::app::progress::{at_chapter_end, finished_at, sleep_choices, sleep_in, sleep_label, Shutdown};
use some_audiobook_player::app::{opening_status, Moment, PlayerApp, Screen, Sleep};
use some_audiobook_player::browse::{Category, LibView};
use some_audiobook_player::icons;
use some_audiobook_player::library::db::{Database, Sort};
use some_audiobook_player::library::scan::ImportReport;
use some_audiobook_player::library::{BookMeta, Chapter, Track};
use some_audiobook_player::mpris::{art_file, file_url, micros, MprisCommand, MprisUpdate};
use some_audiobook_player::time::Duration;
use some_audiobook_player::toast::{Level, Toasts};

fn secs(s: u64) -> Duration {
    Duration::from_secs(s)
}

fn at(s: u64) -> Moment {
    Moment { tick: secs(s), stamp: 1000 + s as i64 }
}

fn meta(title: &str) -> BookMeta {
    let ch = |i: usize, s: u64| Chapter { index: i, title: format!("Ch {i}"), start: secs(s) };
    BookMeta {
        title: Some(title.into()),
        author: Some("Author".into()),
        duration: Some(secs(300)),
        chapters: vec![ch(0, 0), ch(1, 100), ch(2, 200)],
        ..BookMeta::default()
    }
}

fn player() -> PlayerApp {
    PlayerApp::new(Database::open_in_memory().unwrap(), "Ready.".into(), secs(0))
}

/// A player with one book opened at `position`, resumed a little earlier.
fn opened(position: u64) -> (PlayerApp, i64) {
    let mut p = player();
    let id = p.db.upsert_book_at("/a.m4b", &meta("A"), 5).unwrap();
    p.db.update_position_at(id, secs(position), false, 6).unwrap();
    let book = match p.open_book(id) {
        Opening::Wanted(b) => b,
        Opening::Settled => panic!("settled"),
    };
    p.engine_ready();
    assert!(matches!(p.load_request(&book), Loading::Single));
    p.finish_open(&book, meta("A"), 48_000, at(1));
    (p, id)
}

#[test]
fn a_player_starts_with_its_library() {
    let mut db = Database::open_in_memory().unwrap();
    db.upsert_book_at("/a", &meta("A"), 1).unwrap();
    db.set_setting("lib_view", "details");
    db.set_setting("category", "readers");
    let p = PlayerApp::new(db, "Ready.".into(), secs(3));
    assert_eq!(p.books.len(), 1);
    assert_eq!(p.lib_view, LibView::Details);
    assert_eq!(p.category, Category::Readers);
    assert_eq!(p.sort, Sort::RecentlyPlayed);
    assert_eq!(p.screen, Screen::Library);
    assert!(!p.has_loaded() && !p.is_playing());
    assert_eq!(opening_status(&None), "Ready.");
    assert_eq!(
        opening_status(&Some("no disk".into())),
        "Using a temporary library (couldn't open on disk: no disk)"
    );
}

#[test]
fn a_book_resumes_a_little_earlier() {
    let (p, id) = opened(50);
    assert_eq!(p.current_book_id, Some(id));
    assert_eq!(p.screen, Screen::Player);
    let e = p.engine.as_ref().unwrap();
    assert_eq!(e.position(), secs(42));
    assert!(e.is_paused());
    let (q, _) = opened(5);
    assert_eq!(q.engine.as_ref().unwrap().position(), secs(0));
}

#[test]
fn opening_the_loaded_book_keeps_playing() {
    let (mut p, id) = opened(50);
    p.engine.as_mut().unwrap().play();
    p.screen = Screen::Library;
    assert!(matches!(p.open_book(id), Opening::Settled));
    assert!(p.is_playing());
    assert_eq!(p.screen, Screen::Player);
    assert_eq!(p.engine.as_ref().unwrap().position(), secs(42));
}

#[test]
fn opening_can_fail() {
    let mut p = player();
    assert!(matches!(p.open_book(9), Opening::Settled));
    assert_eq!(p.status, "That book is no longer in the library.");
    p.engine_failed("no device");
    assert_eq!(p.status, "Audio error: no device");
    let id = p.db.upsert_multi_book_at("/d", &meta("D"), &Vec::new(), 1).unwrap();
    let book = p.db.get_book(id).unwrap().unwrap();
    assert!(matches!(p.load_request(&book), Loading::Settled));
    assert_eq!(p.status, "This book has no tracks.");
    p.load_failed(&book, "gone");
    assert_eq!(p.status, "Could not open /d: gone");
    assert!(matches!(p.open_file("/x", Err("bad".into()), 1), Opening::Settled));
    assert_eq!(p.status, "Could not open: bad");
    match p.open_file("/x", Ok(meta("X")), 1) {
        Opening::Wanted(b) => assert_eq!(b.title, "X"),
        Opening::Settled => panic!("settled"),
    }
    assert_eq!(p.books.len(), 2);
}

#[test]
fn a_multi_file_book_is_loaded_from_its_tracks() {
    let mut p = player();
    let track = |i: usize| Track {
        idx: i,
        path: format!("/d/{i}.mp3"),
        start: secs(i as u64 * 10),
        duration: secs(10),
        title: format!("Part {i}"),
    };
    let mut m = meta("D");
    m.duration = Some(secs(20));
    let id = p.db.upsert_multi_book_at("/d", &m, &vec![track(0), track(1)], 1).unwrap();
    let book = p.db.get_book(id).unwrap().unwrap();
    match p.load_request(&book) {
        Loading::Multi { files, meta } => {
            assert_eq!(files, vec![("/d/0.mp3".to_string(), secs(10)), ("/d/1.mp3".to_string(), secs(10))]);
            assert_eq!(meta.chapters.len(), 2);
            assert_eq!(meta.chapters[1].title, "Part 1");
            assert_eq!(meta.chapters[1].start, secs(10));
            assert_eq!(meta.title.as_deref(), Some("D"));
            assert_eq!(meta.album, None);
            assert_eq!(meta.duration, Some(secs(20)));
        }
        _ => panic!("not multi"),
    }
}

#[test]
fn progress_is_saved_while_playing() {
    let (mut p, id) = opened(50);
    assert!(!p.tick(at(100)));
    assert_eq!(p.db.get_book(id).unwrap().unwrap().position, secs(50));
    p.engine.as_mut().unwrap().play();
    assert!(p.tick(at(3)));
    assert_eq!(p.db.get_book(id).unwrap().unwrap().position, secs(50));
    assert!(p.tick(at(6)));
    let b = p.db.get_book(id).unwrap().unwrap();
    assert_eq!(b.position, secs(42));
    assert_eq!(b.last_played, Some(1006));
    assert!(!b.finished);
}

#[test]
fn a_finished_book_enters_history_once() {
    let (mut p, id) = opened(50);
    p.engine.as_mut().unwrap().seek(secs(270));
    p.save_progress(at(2));
    assert!(p.history_pushed);
    assert!(p.db.get_book(id).unwrap().unwrap().finished);
    let e = p.db.history_for_key("/a.m4b").unwrap().unwrap();
    assert!(e.finished && !e.added_manually);
    p.db.remove_history(e.id).unwrap();
    p.save_progress(at(3));
    assert!(p.db.history_for_key("/a.m4b").unwrap().is_none());
    assert!(finished_at(secs(270), secs(300)));
    assert!(!finished_at(secs(269), secs(300)));
    assert!(!finished_at(secs(269), secs(0)));
}

#[test]
fn the_sleep_timer_pauses_and_may_shut_down() {
    let (mut p, _) = opened(50);
    p.engine.as_mut().unwrap().play();
    p.sleep = sleep_in(secs(0), 1);
    p.shutdown_on_sleep = true;
    p.enforce_sleep(at(59));
    assert!(p.is_playing());
    p.enforce_sleep(at(60));
    assert!(!p.is_playing());
    assert!(matches!(p.sleep, Sleep::Off));
    assert_eq!(p.shutdown_step(secs(60)), Shutdown::Countdown(11));
    assert_eq!(p.shutdown_step(Duration::from_millis(69_500)), Shutdown::Countdown(1));
    assert_eq!(p.shutdown_step(secs(70)), Shutdown::Now);
    assert_eq!(p.shutdown_step(secs(71)), Shutdown::Idle);
    p.shutdown_at = Some(secs(100));
    p.cancel_shutdown(secs(72));
    assert_eq!(p.shutdown_step(secs(200)), Shutdown::Idle);
    assert_eq!(p.toasts.items[0].text, "Shutdown cancelled.");
    p.shutdown_failed(Some("exit status: 1"), "", secs(73));
    assert_eq!(p.toasts.items[1].text, "Shutdown was refused (systemctl exited exit status: 1).");
    p.shutdown_failed(None, "not found", secs(73));
    assert_eq!(p.toasts.items[2].text, "Couldn't run shutdown: not found");
}

#[test]
fn a_jump_does_not_trip_the_end_of_chapter() {
    let (mut p, _) = opened(50);
    p.engine.as_mut().unwrap().play();
    p.sleep = Sleep::EndOfChapter(0);
    p.watch_position();
    p.engine.as_mut().unwrap().seek(secs(150));
    p.watch_position();
    p.enforce_sleep(at(2));
    assert!(p.is_playing());
    assert!(matches!(p.sleep, Sleep::EndOfChapter(1)));
    // Playing on past the end of the chapter does trip it.
    let load = p.engine.as_ref().unwrap().loads();
    p.engine.as_mut().unwrap().seek(secs(199));
    p.watch_position();
    p.engine.as_mut().unwrap().advance(load, 2 * 48_000);
    p.watch_position();
    p.enforce_sleep(at(3));
    assert!(!p.is_playing());
}

#[test]
fn sleep_labels() {
    assert_eq!(sleep_label(Sleep::Off, secs(0)), "Off");
    assert_eq!(sleep_label(Sleep::EndOfChapter(3), secs(0)), "End of chapter");
    assert_eq!(sleep_label(Sleep::Until(secs(605)), secs(0)), format!("{} 10:05", icons::CLOCK));
    let (mut p, _) = opened(50);
    p.apply(Action::SetSleep(sleep_in(secs(0), 10)), at(1));
    assert_eq!(p.status, "Sleep in 10 min.");
    p.apply(Action::SetSleep(Sleep::Off), at(1));
    assert_eq!(p.status, "Sleep timer off.");
    p.apply(Action::SetSleep(Sleep::EndOfChapter(1)), at(1));
    assert_eq!(p.status, "Sleep at end of chapter.");
}

#[test]
fn bookmarks_take_the_chapter_title() {
    let (mut p, id) = opened(150);
    assert!(matches!(p.apply(Action::AddBookmark, at(1)), Request::Nothing));
    assert_eq!(p.bookmarks.len(), 1);
    assert_eq!(p.bookmarks[0].label, "Ch 1");
    assert_eq!(p.bookmarks[0].position, secs(142));
    assert_eq!(p.bookmarks[0].book_id, id);
    p.apply(Action::JumpTo(secs(10)), at(1));
    assert_eq!(p.engine.as_ref().unwrap().position(), secs(10));
    let mark = p.bookmarks[0].id;
    p.apply(Action::DeleteBookmark(mark), at(1));
    assert!(p.bookmarks.is_empty());
}

#[test]
fn rating_and_noting_create_the_entry() {
    let (mut p, _) = opened(50);
    assert!(p.current_history.is_none());
    p.apply(Action::RateBook(4), at(1));
    assert_eq!(p.current_history.as_ref().unwrap().rating, Some(4));
    assert!(!p.current_history.as_ref().unwrap().added_manually);
    p.note_edit = "typing".into();
    p.apply(Action::SetNote("good".into()), at(2));
    assert_eq!(p.current_history.as_ref().unwrap().note, "good");
    assert_eq!(p.note_edit, "typing");
    assert_eq!(p.history.len(), 1);
    let id = p.history[0].id;
    p.apply(Action::RateHistory(id, 2), at(3));
    assert_eq!(p.current_history.as_ref().unwrap().rating, Some(2));
    p.apply(Action::SetHistoryNote(id, "n".into()), at(3));
    assert_eq!(p.history[0].note, "n");
    p.apply(Action::SetHistoryDate(id, 86_400), at(3));
    assert_eq!(p.history[0].last_played, Some(86_400));
    p.apply(Action::RemoveHistory(id), at(4));
    assert!(p.current_history.is_none() && p.history.is_empty());
    assert_eq!(p.note_edit, "");
    p.apply(Action::AddToHistory, at(5));
    assert!(p.current_history.as_ref().unwrap().added_manually);
}

#[test]
fn a_book_is_added_to_history_by_hand() {
    let mut p = player();
    let id = p.db.upsert_book_at("/a", &meta("A"), 1).unwrap();
    p.apply(Action::AddBookToHistory(id), at(2));
    assert!(p.history[0].added_manually);
    assert_eq!(p.toasts.items[0].text, "Added \u{201c}A\u{201d} to My History.");
    assert_eq!(p.toasts.items[0].level, Level::Success);
    p.apply(Action::AddBookToHistory(99), at(2));
    assert_eq!(p.toasts.items.len(), 1);
}

#[test]
fn actions_ask_for_what_lies_outside() {
    let (mut p, id) = opened(50);
    match p.apply(Action::AddFolder("/books".into()), at(1)) {
        Request::Scan(root) => assert_eq!(root, "/books"),
        _ => panic!("no scan"),
    }
    match p.apply(Action::Rescan, at(1)) {
        Request::ScanAll(roots) => assert_eq!(roots, vec!["/books"]),
        _ => panic!("no scan"),
    }
    let other = p.db.upsert_book_at("/b", &meta("B"), 1).unwrap();
    match p.apply(Action::OpenBook(other), at(1)) {
        Request::Load(b) => assert_eq!(b.id, other),
        _ => panic!("no load"),
    }
    assert!(matches!(p.apply(Action::OpenBook(id), at(1)), Request::Nothing));
    p.apply(Action::Back, at(9));
    assert_eq!(p.screen, Screen::Library);
    assert_eq!(p.db.get_book(id).unwrap().unwrap().position, secs(42));
    p.apply(Action::ShowPlayer, at(9));
    assert_eq!(p.screen, Screen::Player);
    p.apply(Action::SetSort(Sort::Title), at(9));
    assert_eq!(p.books[0].title, "A");
    assert!(matches!(hit_action(Some(Hit::Open), 3), Some(Action::OpenBook(3))));
    assert!(matches!(hit_action(Some(Hit::AddToHistory), 3), Some(Action::AddBookToHistory(3))));
    assert!(hit_action(None, 3).is_none());
}

#[test]
fn scans_are_reported() {
    let mut p = player();
    p.db.upsert_book_at("/a", &meta("A"), 1).unwrap();
    let report = |n: usize, bad: &[&str]| ImportReport {
        imported: n,
        skipped_existing: 0,
        failed: bad.iter().map(|b| (b.to_string(), "why".to_string())).collect(),
    };
    p.folder_added(report(1, &["/x"]), secs(1));
    assert_eq!(p.toasts.items[0].text, "1 imported, 1 failed");
    assert_eq!(p.failures.len(), 1);
    assert_eq!(p.books.len(), 1);
    p.rescanned(&vec![report(2, &["/y"]), report(3, &["/z", "/w"])], secs(2));
    assert_eq!(p.toasts.items[1].text, "Rescanned 2 location(s): 5 new, 3 failed");
    assert_eq!(p.failures.iter().map(|f| f.0.as_str()).collect::<Vec<_>>(), vec!["/y", "/z", "/w"]);
}

#[test]
fn browsing_filters_and_remembers() {
    let mut p = player();
    p.db.upsert_book_at("/a", &meta("Alpha"), 3).unwrap();
    let mut other = meta("Beta");
    other.author = Some("Other".into());
    p.db.upsert_book_at("/b", &other, 2).unwrap();
    p.refresh_books();
    assert_eq!(p.visible_books(), vec![0, 1]);
    p.search = " BET ".into();
    assert_eq!(p.visible_books(), vec![1]);
    p.search = String::new();
    p.select_category(Category::Authors);
    p.select_name(Some("Author"));
    assert_eq!(p.visible_books(), vec![0]);
    p.select_name(Some("Author"));
    assert_eq!(p.selected_author, None);
    p.select_name(Some("Other"));
    p.select_name(None);
    assert_eq!(p.selected_author, None);
    p.select_name(Some("Other"));
    p.select_category(Category::Readers);
    assert_eq!(p.selected_author, None);
    p.select_name(Some("Unknown"));
    assert_eq!(p.selected_reader.as_deref(), Some("Unknown"));
    assert_eq!(p.visible_books(), vec![0, 1]);
    assert_eq!(p.db.get_setting("category").as_deref(), Some("readers"));
    p.select_view(LibView::Compact);
    assert_eq!(p.lib_view, LibView::Compact);
    assert_eq!(p.db.get_setting("lib_view").as_deref(), Some("compact"));
}

#[test]
fn the_desktop_controls_playback() {
    let (mut p, _) = opened(8);
    assert!(p.command(MprisCommand::Raise));
    assert!(!p.command(MprisCommand::PlayPause));
    assert!(p.is_playing());
    p.command(MprisCommand::Stop);
    assert!(!p.is_playing());
    p.command(MprisCommand::Play);
    p.command(MprisCommand::Pause);
    assert!(!p.is_playing());
    p.command(MprisCommand::Next);
    assert_eq!(p.engine.as_ref().unwrap().position(), secs(100));
    p.command(MprisCommand::Prev);
    p.command(MprisCommand::SeekBy(70));
    assert_eq!(p.engine.as_ref().unwrap().position(), secs(70));
    p.command(MprisCommand::SeekTo(30));
    assert_eq!(p.engine.as_ref().unwrap().position(), secs(30));
    p.engine.as_mut().unwrap().seek(Duration::from_millis(10_500));
    p.command(MprisCommand::SeekBy(5));
    assert_eq!(p.engine.as_ref().unwrap().position(), Duration::from_millis(15_500));
    p.command(MprisCommand::SeekTo(-5));
    assert_eq!(p.engine.as_ref().unwrap().position(), secs(0));
    let mut silent = player();
    assert!(!silent.command(MprisCommand::Next));
    assert!(silent.command(MprisCommand::Raise));
}

#[test]
fn the_desktop_is_told() {
    let (mut p, _) = opened(8);
    let told = p.sync_mpris(secs(10));
    assert_eq!(told.len(), 1);
    assert!(matches!(told[0], MprisUpdate::Status { playing: false }));
    assert!(p.sync_mpris(secs(11)).is_empty());
    p.command(MprisCommand::Play);
    let told = p.sync_mpris(secs(12));
    assert!(matches!(told[0], MprisUpdate::Status { playing: true }));
    assert!(matches!(told[1], MprisUpdate::Position(_)));
    assert!(p.sync_mpris(Duration::from_millis(12_900)).is_empty());
    assert_eq!(p.sync_mpris(secs(13)).len(), 1);
    let now = p.now_playing(Some("file:///c".into())).unwrap();
    assert_eq!(now.title, "A");
    assert_eq!(now.artist, "Author");
    assert_eq!(now.album, "");
    assert_eq!(now.length, secs(300));
    assert_eq!(now.art_url.as_deref(), Some("file:///c"));
    assert!(player().now_playing(None).is_none());
    assert_eq!(micros(secs(2)), 2_000_000);
    assert_eq!(micros(secs(u64::MAX)), (u64::MAX as u128 * 1_000_000) as i64);
    assert_eq!(art_file(true), "some-audiobook-player-cover.png");
    assert_eq!(art_file(false), "some-audiobook-player-cover.jpg");
    assert_eq!(file_url("/tmp/x"), "file:///tmp/x");
}

#[test]
fn toasts_go_away() {
    let mut t = Toasts::default();
    t.success("a", secs(0));
    t.info("b", secs(1));
    t.warning("c", secs(2));
    t.error("d", secs(3));
    assert_eq!(t.items.iter().map(|x| x.level).collect::<Vec<_>>(), vec![
        Level::Success,
        Level::Info,
        Level::Warning,
        Level::Error
    ]);
    t.expire(Duration::from_millis(3_999));
    assert_eq!(t.items.len(), 4);
    t.expire(secs(4));
    assert_eq!(t.items.len(), 3);
    t.close(1);
    assert_eq!(t.items.iter().map(|x| x.text.as_str()).collect::<Vec<_>>(), vec!["b", "d"]);
    assert_eq!(Level::Error.color(), (0xDA, 0x54, 0x4F));
    assert_eq!(Level::Info.color(), (0x4C, 0x8B, 0xF5));
}

#[test]
fn a_written_date_is_set_or_shown_again() {
    let (mut p, _) = opened(8);
    p.apply(Action::AddToHistory, at(2));
    let mut entry = p.db.list_history().unwrap().remove(0);
    entry.last_played = Some(951_782_400 + 5);
    assert_eq!(date_shown(&entry), "2000-02-29");
    assert!(matches!(date_written(&entry, " 1970-01-02 "), Ok(Action::SetHistoryDate(id, 86_400)) if id == entry.id));
    assert_eq!(date_written(&entry, "soon").unwrap_err(), "2000-02-29");
    entry.last_played = None;
    assert_eq!(date_written(&entry, "").unwrap_err(), "");
}

#[test]
fn a_sleep_timer_is_offered() {
    assert_eq!(sleep_choices(), vec![10, 15, 30, 45, 60]);
    assert!(matches!(at_chapter_end(Some(3)), Some(Sleep::EndOfChapter(3))));
    assert!(at_chapter_end(None).is_none());
}
