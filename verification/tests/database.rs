use some_audiobook_player::library::db::{
    stamp, stored_rating, BookRow, Change, Database, DbError, Setting, Sort, TrackRow,
};
use some_audiobook_player::library::{Book, BookMeta, Bookmark, Chapter, Cover, HistoryEntry, Track};
use some_audiobook_player::time::Duration;

fn sample_meta() -> BookMeta {
    BookMeta {
        title: Some("The Hobbit".into()),
        author: Some("J.R.R. Tolkien".into()),
        reader: Some("Rob Inglis".into()),
        album: None,
        file_name: None,
        duration: Some(Duration::from_secs(3600)),
        chapters: Vec::new(),
        cover: Some(Cover { data: vec![1, 2, 3], is_png: true }),
    }
}

fn titled(title: &str, author: Option<&str>) -> BookMeta {
    BookMeta { title: Some(title.into()), author: author.map(|a| a.into()), ..BookMeta::default() }
}

fn track(idx: usize, path: &str) -> Track {
    Track {
        idx,
        path: path.into(),
        start: Duration::from_secs(idx as u64 * 60),
        duration: Duration::from_secs(60),
        title: format!("Part {idx}"),
    }
}

#[test]
fn reader_column_round_trips() {
    let mut db = Database::open_in_memory().unwrap();
    let id = db.upsert_book("/books/hobbit.m4b", &sample_meta()).unwrap();
    let book = db.get_book(id).unwrap().unwrap();
    assert_eq!(book.reader.as_deref(), Some("Rob Inglis"));
    assert_eq!(book.author.as_deref(), Some("J.R.R. Tolkien"));
}

#[test]
fn history_crud_and_survives_book_removal() {
    let mut db = Database::open_in_memory().unwrap();
    let id = db.upsert_book("/books/hobbit.m4b", &sample_meta()).unwrap();
    let book = db.get_book(id).unwrap().unwrap();

    // Auto-add on finish, then rate + note it.
    db.upsert_history_from_book(&book, true, false).unwrap();
    let entry = db
        .history_for_key("/books/hobbit.m4b")
        .unwrap()
        .expect("history entry");
    assert!(entry.finished);
    assert_eq!(entry.title, "The Hobbit");
    assert_eq!(entry.reader.as_deref(), Some("Rob Inglis"));
    assert!(entry.cover.is_some(), "cover copied into history");

    db.set_history_rating(entry.id, Some(4)).unwrap();
    db.set_history_note(entry.id, "Loved it.").unwrap();

    // Removing the book must NOT remove the history entry.
    db.remove_book(id).unwrap();
    assert!(db.get_book(id).unwrap().is_none());

    let list = db.list_history().unwrap();
    assert_eq!(list.len(), 1);
    assert_eq!(list[0].rating, Some(4));
    assert_eq!(list[0].note, "Loved it.");

    // Re-listening keeps the rating/note but bumps last_played + finished.
    db.upsert_history_from_book(&book, false, false).unwrap();
    let again = db.history_for_key("/books/hobbit.m4b").unwrap().unwrap();
    assert_eq!(again.rating, Some(4));
    assert_eq!(again.note, "Loved it.");
    assert!(again.finished, "finished stays set once true");

    db.remove_history(again.id).unwrap();
    assert!(db.list_history().unwrap().is_empty());
}

#[test]
fn a_book_reads_back_as_it_was_put_in() {
    let mut db = Database::open_in_memory().unwrap();
    let mut meta = sample_meta();
    meta.chapters = vec![
        Chapter { index: 0, title: "One".into(), start: Duration::zero() },
        Chapter { index: 1, title: "Two".into(), start: Duration::from_secs(10) },
    ];
    let id = db.upsert_book_at("/b/h.m4b", &meta, 77).unwrap();
    assert_eq!(id, 1);
    let b = db.get_book(id).unwrap().unwrap();
    assert_eq!(b.path, "/b/h.m4b");
    assert_eq!(b.title, "The Hobbit");
    assert_eq!(b.duration, Duration::from_secs(3600));
    assert_eq!(b.chapter_count, 2);
    assert_eq!(b.cover.as_ref().unwrap().data, vec![1, 2, 3]);
    assert!(b.cover.as_ref().unwrap().is_png);
    assert_eq!(b.position, Duration::zero());
    assert!(!b.finished);
    assert_eq!(b.speed_bits, 1.0f32.to_bits());
    assert!(!b.is_multi);
    assert_eq!(b.added_at, 77);
    assert_eq!(b.last_played, None);
    assert!(db.book_path_exists("/b/h.m4b").unwrap());
    assert!(!db.book_path_exists("/b/other.m4b").unwrap());
}

#[test]
fn importing_again_keeps_the_resume_state() {
    let mut db = Database::open_in_memory().unwrap();
    let id = db.upsert_book_at("/b/h.m4b", &sample_meta(), 10).unwrap();
    db.update_position_at(id, Duration::from_secs(42), true, 20).unwrap();
    db.update_speed(id, 1.5f32.to_bits()).unwrap();
    assert_eq!(db.update_speed(id, f32::NAN.to_bits()), Err(DbError::NotANumber));
    assert_eq!(db.update_speed(id + 1, f32::NAN.to_bits()), Ok(()));
    assert_eq!(DbError::NotANumber.message(), "a speed is not a number");
    let again = db.upsert_book_at("/b/h.m4b", &titled("There and back", None), 30).unwrap();
    assert_eq!(again, id);
    let b = db.get_book(id).unwrap().unwrap();
    assert_eq!(b.title, "There and back");
    assert_eq!(b.author, None);
    assert!(b.cover.is_none());
    assert_eq!(b.position, Duration::from_secs(42));
    assert!(b.finished);
    assert_eq!(b.added_at, 10);
    assert_eq!(b.last_played, Some(20));
    assert_eq!(b.speed_bits, 1.5f32.to_bits());
}

#[test]
fn the_clock_stamps_what_is_put_in_now() {
    let mut db = Database::open_in_memory().unwrap();
    let id = db.upsert_book("/b/h.m4b", &sample_meta()).unwrap();
    let b = db.get_book(id).unwrap().unwrap();
    // Well after this was written, and no time of the far future.
    assert!(b.added_at > 1_600_000_000);
    assert!(b.added_at < 100_000_000_000);
    db.update_position(id, Duration::from_secs(1), false).unwrap();
    assert!(db.get_book(id).unwrap().unwrap().last_played.unwrap() >= b.added_at);
}

#[test]
fn a_clock_reading_becomes_a_stamp() {
    assert_eq!(stamp(None), 0);
    assert_eq!(stamp(Some(1_700_000_000)), 1_700_000_000);
    assert_eq!(stamp(Some(i64::MAX as u64)), i64::MAX);
    assert_eq!(stamp(Some(u64::MAX)), -1);
}

#[test]
fn a_book_without_title_shows_album_file_or_stand_in() {
    let mut m = BookMeta::default();
    assert_eq!(m.display_title(), "Unknown book");
    m.file_name = Some("dune.m4b".into());
    assert_eq!(m.display_title(), "dune.m4b");
    m.album = Some("Album".into());
    assert_eq!(m.display_title(), "Album");
    m.title = Some("Title".into());
    assert_eq!(m.display_title(), "Title");
    assert_eq!(BookMeta::default().length(), Duration::zero());
}

#[test]
fn multi_file_books_keep_their_tracks_in_order() {
    let mut db = Database::open_in_memory().unwrap();
    let tracks = vec![track(2, "/d/c.mp3"), track(0, "/d/a.mp3"), track(1, "/d/b.mp3")];
    let id = db.upsert_multi_book_at("/d", &titled("D", None), &tracks, 5).unwrap();
    let back = db.tracks(id).unwrap();
    let paths: Vec<&str> = back.iter().map(|t| t.path.as_str()).collect();
    assert_eq!(paths, vec!["/d/a.mp3", "/d/b.mp3", "/d/c.mp3"]);
    let b = db.get_book(id).unwrap().unwrap();
    assert!(b.is_multi);
    assert_eq!(b.chapter_count, 3);
    // A refresh replaces the track list.
    db.upsert_multi_book("/d", &titled("D", None), &vec![track(0, "/d/x.mp3")]).unwrap();
    assert_eq!(db.tracks(id).unwrap().len(), 1);
    assert_eq!(db.tracks(id + 1).unwrap().len(), 0);
}

#[test]
fn tracks_put_in_any_order_read_back_by_number() {
    let mut db = Database::open_in_memory().unwrap();
    let other = db.upsert_multi_book_at("/e", &titled("E", None), &vec![track(4, "/e/x.mp3")], 5).unwrap();
    let tracks = vec![track(9, "/d/z.mp3"), track(3, "/d/m.mp3"), track(5, "/d/n.mp3")];
    let id = db.upsert_multi_book_at("/d", &titled("D", None), &tracks, 5).unwrap();
    let back = db.tracks(id).unwrap();
    let numbers: Vec<(usize, &str)> = back.iter().map(|t| (t.idx, t.path.as_str())).collect();
    assert_eq!(numbers, vec![(3, "/d/m.mp3"), (5, "/d/n.mp3"), (9, "/d/z.mp3")]);
    assert_eq!(db.tracks(other).unwrap()[0].path, "/e/x.mp3");
}

#[test]
fn a_repeated_track_number_is_refused() {
    let mut db = Database::open_in_memory().unwrap();
    let tracks = vec![track(0, "/d/a.mp3"), track(1, "/d/b.mp3"), track(0, "/d/c.mp3")];
    assert_eq!(db.upsert_multi_book_at("/d", &titled("D", None), &tracks, 5), Err(DbError::RepeatedTrack));
    let id = db.list_books(Sort::Title).unwrap()[0].id;
    assert_eq!(db.tracks(id).unwrap().len(), 2);
    assert_eq!(DbError::RepeatedTrack.message(), "two tracks have the same number");
}

#[test]
fn ids_can_run_out() {
    let last = Book {
        id: i64::MAX,
        path: "/last".into(),
        title: "Last".into(),
        author: None,
        reader: None,
        duration: Duration::zero(),
        chapter_count: 0,
        cover: None,
        position: Duration::zero(),
        finished: false,
        speed_bits: 1.0f32.to_bits(),
        is_multi: false,
        added_at: 0,
        last_played: None,
    };
    let mut db = Database::restore(
        Vec::new(),
        Vec::new(),
        vec![BookRow { book: last, album: None }],
        Vec::new(),
        Vec::new(),
        Vec::new(),
    )
    .unwrap();
    assert_eq!(db.upsert_book_at("/new", &titled("N", None), 1), Err(DbError::Full));
    assert_eq!(db.upsert_book_at("/last", &titled("N", None), 1), Ok(i64::MAX));
}

#[test]
fn books_are_listed_in_each_order() {
    let mut db = Database::open_in_memory().unwrap();
    let a = db.upsert_book_at("/1", &titled("beta", Some("Zed")), 10).unwrap();
    let b = db.upsert_book_at("/2", &titled("Alpha", None), 30).unwrap();
    let c = db.upsert_book_at("/3", &titled("gamma", Some("abe")), 20).unwrap();
    db.update_position_at(a, Duration::zero(), false, 100).unwrap();
    db.update_position_at(c, Duration::zero(), false, 200).unwrap();
    let ids = |s: Sort| -> Vec<i64> { db.list_books(s).unwrap().iter().map(|b| b.id).collect() };
    assert_eq!(ids(Sort::Title), vec![b, a, c]);
    assert_eq!(ids(Sort::Author), vec![b, c, a]);
    assert_eq!(ids(Sort::RecentlyAdded), vec![b, c, a]);
    assert_eq!(ids(Sort::RecentlyPlayed), vec![c, a, b]);
}

#[test]
fn removing_a_book_takes_its_tracks_and_bookmarks_along() {
    let mut db = Database::open_in_memory().unwrap();
    let id = db.upsert_multi_book_at("/d", &titled("D", None), &vec![track(0, "/d/a.mp3")], 1).unwrap();
    let other = db.upsert_book_at("/e", &titled("E", None), 1).unwrap();
    db.add_bookmark(id, Duration::from_secs(3), "here").unwrap();
    db.add_bookmark(other, Duration::from_secs(4), "there").unwrap();
    db.remove_book(id).unwrap();
    assert!(db.get_book(id).unwrap().is_none());
    assert!(db.tracks(id).unwrap().is_empty());
    assert!(db.bookmarks(id).unwrap().is_empty());
    assert_eq!(db.bookmarks(other).unwrap().len(), 1);
}

#[test]
fn only_single_file_books_are_removed_by_path() {
    let mut db = Database::open_in_memory().unwrap();
    db.upsert_multi_book_at("/d", &titled("D", None), &vec![track(0, "/d/a.mp3")], 1).unwrap();
    db.upsert_book_at("/d/a.mp3", &titled("A", None), 1).unwrap();
    db.remove_single_file_book("/d").unwrap();
    assert!(db.book_path_exists("/d").unwrap());
    db.remove_single_file_book("/d/a.mp3").unwrap();
    assert!(!db.book_path_exists("/d/a.mp3").unwrap());
}

#[test]
fn bookmarks_are_listed_by_position_and_can_be_removed() {
    let mut db = Database::open_in_memory().unwrap();
    let id = db.upsert_book_at("/a", &titled("A", None), 1).unwrap();
    db.add_bookmark(id, Duration::from_secs(30), "late").unwrap();
    db.add_bookmark(id, Duration::from_secs(10), "early").unwrap();
    let marks = db.bookmarks(id).unwrap();
    assert_eq!(marks[0].label, "early");
    assert_eq!(marks[1].label, "late");
    db.remove_bookmark(marks[0].id).unwrap();
    assert_eq!(db.bookmarks(id).unwrap().len(), 1);
    assert!(db.bookmark(marks[0].id).is_none());
    assert_eq!(db.bookmark(marks[1].id).unwrap().label, "late");
    assert_eq!(db.add_bookmark(99, Duration::zero(), "x"), Err(DbError::NoSuchBook));
    assert_eq!(DbError::NoSuchBook.message(), "no such book");
}

#[test]
fn listening_again_keeps_rating_note_and_first_listening() {
    let mut db = Database::open_in_memory().unwrap();
    let id = db.upsert_book_at("/a", &titled("A", None), 1).unwrap();
    let book = db.get_book(id).unwrap().unwrap();
    db.upsert_history_from_book_at(&book, false, true, 100).unwrap();
    let e = db.history_for_key("/a").unwrap().unwrap();
    assert_eq!(e.rating, None);
    assert_eq!(e.first_played, Some(100));
    db.set_history_rating(e.id, Some(9)).unwrap();
    db.set_history_note(e.id, "note").unwrap();
    db.upsert_history_from_book_at(&book, true, false, 200).unwrap();
    let e = db.history_for_key("/a").unwrap().unwrap();
    assert_eq!(e.rating, Some(5));
    assert_eq!(e.note, "note");
    assert_eq!(e.first_played, Some(100));
    assert_eq!(e.last_played, Some(200));
    assert!(e.finished);
    assert!(e.added_manually);
    db.set_history_date(e.id, 50).unwrap();
    db.set_history_rating(e.id, None).unwrap();
    let e = db.history_entry(e.id).unwrap();
    assert_eq!(e.last_played, Some(50));
    assert_eq!(e.rating, None);
    assert!(db.history_for_key("/none").unwrap().is_none());
}

#[test]
fn history_is_listed_latest_first() {
    let mut db = Database::open_in_memory().unwrap();
    for (path, at) in [("/a", 10), ("/b", 30), ("/c", 20)] {
        let id = db.upsert_book_at(path, &titled(path, None), 1).unwrap();
        let book = db.get_book(id).unwrap().unwrap();
        db.upsert_history_from_book_at(&book, false, false, at).unwrap();
    }
    let keys: Vec<String> = db.list_history().unwrap().into_iter().map(|h| h.book_key).collect();
    assert_eq!(keys, vec!["/b", "/c", "/a"]);
}

#[test]
fn locations_are_kept_once_and_in_order() {
    let mut db = Database::open_in_memory().unwrap();
    db.add_storage_location("/z").unwrap();
    db.add_storage_location("/a").unwrap();
    db.add_storage_location("/z").unwrap();
    assert_eq!(db.storage_locations().unwrap(), vec!["/a", "/z"]);
    db.remove_storage_location("/a").unwrap();
    db.remove_storage_location("/missing").unwrap();
    assert_eq!(db.storage_locations().unwrap(), vec!["/z"]);
}

#[test]
fn settings_read_back() {
    let mut db = Database::open_in_memory().unwrap();
    assert_eq!(db.get_setting("k"), None);
    db.set_setting("k", "1");
    db.set_setting("l", "2");
    db.set_setting("k", "3");
    assert_eq!(db.get_setting("k").as_deref(), Some("3"));
    assert_eq!(db.get_setting("l").as_deref(), Some("2"));
}

#[test]
fn changes_tell_what_was_written() {
    let mut db = Database::open_in_memory().unwrap();
    let id = db.upsert_book_at("/a", &titled("A", None), 1).unwrap();
    db.set_setting("k", "v");
    db.add_storage_location("/r").unwrap();
    let changes = db.take_changes();
    assert_eq!(changes.len(), 3);
    assert!(matches!(changes[0], Change::Book(b) if b == id));
    assert!(matches!(&changes[1], Change::Setting(k) if k == "k"));
    assert!(matches!(&changes[2], Change::Location(p) if p == "/r"));
    assert!(db.take_changes().is_empty());
    // A position of a book that is not there changes nothing.
    db.update_position_at(99, Duration::zero(), false, 1).unwrap();
    assert!(db.take_changes().is_empty());
}

#[test]
fn removing_a_book_tells_its_tracks_and_bookmarks() {
    let mut db = Database::open_in_memory().unwrap();
    let kept = db.upsert_book_at("/a", &titled("A", None), 1).unwrap();
    let id = db.upsert_book_at("/b", &titled("B", None), 1).unwrap();
    db.add_bookmark(id, Duration::from_secs(5), "five").unwrap();
    db.add_bookmark(kept, Duration::from_secs(6), "six").unwrap();
    db.add_bookmark(id, Duration::from_secs(7), "seven").unwrap();
    db.take_changes();
    db.remove_book(id).unwrap();
    // The next book gets the id that has become free; the record still names
    // what belonged to the one before.
    assert_eq!(db.upsert_book_at("/c", &titled("C", None), 1).unwrap(), id);
    let changes = db.take_changes();
    assert_eq!(changes.len(), 5);
    assert!(matches!(changes[0], Change::Book(b) if b == id));
    assert!(matches!(changes[1], Change::Tracks(b) if b == id));
    assert!(matches!(changes[2], Change::Bookmark(1)));
    assert!(matches!(changes[3], Change::Bookmark(3)));
    assert!(matches!(changes[4], Change::Book(b) if b == id));
    assert!(db.bookmarks(id).unwrap().is_empty());
    assert_eq!(db.bookmarks(kept).unwrap().len(), 1);
}

fn plain_book(id: i64, path: &str) -> BookRow {
    BookRow {
        book: Book {
            id,
            path: path.into(),
            title: path.into(),
            author: None,
            reader: None,
            duration: Duration::zero(),
            chapter_count: 0,
            cover: None,
            position: Duration::zero(),
            finished: false,
            speed_bits: 1.0f32.to_bits(),
            is_multi: false,
            added_at: 0,
            last_played: None,
        },
        album: Some("Album".into()),
    }
}

fn plain_entry(id: i64, key: &str, rating: Option<u8>) -> HistoryEntry {
    HistoryEntry {
        id,
        book_key: key.into(),
        keyed: true,
        title: key.into(),
        author: None,
        reader: None,
        cover: None,
        rating,
        note: String::new(),
        first_played: None,
        last_played: None,
        finished: false,
        added_manually: false,
    }
}

#[test]
fn stored_rows_come_back() {
    let db = Database::restore(
        vec!["/a".into(), "/b".into()],
        vec![Setting { key: "k".into(), value: "v".into() }],
        vec![plain_book(2, "/x"), plain_book(5, "/y")],
        vec![TrackRow { book_id: 5, track: track(0, "/y/1.mp3") }],
        vec![Bookmark { id: 3, book_id: 2, position: Duration::zero(), label: "l".into() }],
        vec![plain_entry(7, "/x", Some(5))],
    )
    .unwrap();
    assert_eq!(db.storage_locations().unwrap(), vec!["/a", "/b"]);
    assert_eq!(db.get_setting("k").as_deref(), Some("v"));
    assert_eq!(db.album(2).as_deref(), Some("Album"));
    assert_eq!(db.album(3), None);
    assert_eq!(db.tracks(5).unwrap().len(), 1);
    assert_eq!(db.bookmarks(2).unwrap().len(), 1);
    assert_eq!(db.history_entry(7).unwrap().rating, Some(5));
}

#[test]
fn entries_without_a_key_can_repeat() {
    let bare = |id: i64, rating: u8| HistoryEntry { keyed: false, ..plain_entry(id, "", Some(rating)) };
    let rows = vec![bare(1, 2), plain_entry(2, "/x", None), bare(5, 4)];
    let mut db = Database::restore(Vec::new(), Vec::new(), Vec::new(), Vec::new(), Vec::new(), rows).unwrap();
    assert_eq!(db.list_history().unwrap().len(), 3);
    assert!(db.history_for_key("").unwrap().is_none());
    assert_eq!(db.history_for_key("/x").unwrap().unwrap().id, 2);
    assert_eq!(db.history_entry(5).unwrap().rating, Some(4));
    // A book whose path is empty has an entry of its own.
    let id = db.upsert_book_at("", &titled("N", None), 1).unwrap();
    let book = db.get_book(id).unwrap().unwrap();
    db.upsert_history_from_book_at(&book, false, false, 9).unwrap();
    db.upsert_history_from_book_at(&book, true, false, 10).unwrap();
    assert_eq!(db.list_history().unwrap().len(), 4);
    assert!(db.history_for_key("").unwrap().unwrap().finished);
    let rows = vec![plain_entry(1, "", None), plain_entry(2, "", None)];
    let twice = Database::restore(Vec::new(), Vec::new(), Vec::new(), Vec::new(), Vec::new(), rows);
    assert!(matches!(twice, Err(DbError::Inconsistent)));
}

#[test]
fn rows_that_contradict_each_other_are_refused() {
    let none = || (Vec::new(), Vec::new(), Vec::new(), Vec::new());
    let (l, s, t, m) = none();
    let twice = Database::restore(l, s, vec![plain_book(1, "/x"), plain_book(2, "/x")], t, m, Vec::new());
    assert!(matches!(twice, Err(DbError::Inconsistent)));
    let (l, s, t, m) = none();
    let backwards = Database::restore(l, s, vec![plain_book(2, "/x"), plain_book(1, "/y")], t, m, Vec::new());
    assert!(matches!(backwards, Err(DbError::Inconsistent)));
    let (l, s, t, _) = none();
    let orphan = vec![Bookmark { id: 1, book_id: 9, position: Duration::zero(), label: String::new() }];
    let lost = Database::restore(l, s, vec![plain_book(1, "/x")], t, orphan, Vec::new());
    assert!(matches!(lost, Err(DbError::Inconsistent)));
    let (l, s, t, m) = none();
    let stars = Database::restore(l, s, Vec::new(), t, m, vec![plain_entry(1, "/x", Some(6))]);
    assert!(matches!(stars, Err(DbError::Inconsistent)));
    let (_, s, t, m) = none();
    let unordered = Database::restore(vec!["/b".into(), "/a".into()], s, Vec::new(), t, m, Vec::new());
    assert!(matches!(unordered, Err(DbError::Inconsistent)));
    assert_eq!(DbError::Inconsistent.message(), "stored rows contradict each other");
    assert_eq!(DbError::Full.message(), "no id is left");
}

#[test]
fn stored_ratings_are_stars() {
    assert_eq!(stored_rating(None), None);
    assert_eq!(stored_rating(Some(-3)), Some(0));
    assert_eq!(stored_rating(Some(4)), Some(4));
    assert_eq!(stored_rating(Some(11)), Some(5));
}
