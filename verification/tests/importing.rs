use some_audiobook_player::library::cover::{load_cover, pixels};
use some_audiobook_player::library::db::{Database, Sort};
use some_audiobook_player::library::meta::{
    chapter_at, folder_cover, folder_cover_file, is_blank, read, read_general, read_m4b, reader_for, track_info,
    ChapterMark, FileTags, GeneralTags, Mp4Tags, Picture, PictureFormat, TagReader, Tags,
};
use some_audiobook_player::library::scan::{
    import_file, import_multi, import_multi_at, import_single, import_single_at, is_audiobook, is_standalone,
    lengths_fit, plan, wants_multi, wants_single, FoundFile, ImportReport, Part, Step,
};
use some_audiobook_player::library::{BookMeta, Chapter, Cover};
use some_audiobook_player::paths::{ext_of, file_name, file_stem, path_at_most, sort_paths};
use some_audiobook_player::time::Duration;

fn tags(title: Option<&str>) -> Tags {
    Tags {
        title: title.map(|t| t.into()),
        artist: Some("Artist".into()),
        composer: Some("Composer".into()),
        album: Some("Album".into()),
        picture: Some(Picture { data: vec![9], format: PictureFormat::Png }),
    }
}

fn found(dir: &str, name: &str) -> FoundFile {
    FoundFile { dir: dir.into(), path: format!("{dir}/{name}") }
}

#[test]
fn names_stems_and_extensions() {
    assert_eq!(file_name("/a/b.m4b").as_deref(), Some("b.m4b"));
    assert_eq!(file_name("/a/b/").as_deref(), Some("b"));
    assert_eq!(file_name("/a/.").as_deref(), Some("a"));
    assert_eq!(file_name("/a/..").as_deref(), None);
    assert_eq!(file_name("/").as_deref(), None);
    assert_eq!(ext_of("/a/b.M4B").as_deref(), Some("m4b"));
    assert_eq!(ext_of("/a.b/c").as_deref(), None);
    assert_eq!(ext_of("/a/.hidden").as_deref(), None);
    assert_eq!(ext_of("x.tar.gz").as_deref(), Some("gz"));
    assert_eq!(ext_of("x.").as_deref(), Some(""));
    assert_eq!(file_stem("x.tar.gz").as_deref(), Some("x.tar"));
    assert_eq!(file_stem("/a/.hidden").as_deref(), Some(".hidden"));
    assert_eq!(file_stem("/a/b").as_deref(), Some("b"));
}

#[test]
fn paths_agree_with_the_standard_library() {
    for p in [
        "/a/b.m4b", "a", "", "/", ".", "..", "a/.", "a/..", "./a.mp3", "a//b.c//", ".x", "..x", "a.", "...", "x.y.z",
        "a/./b", "/../q.w",
    ] {
        let std_path = std::path::Path::new(p);
        assert_eq!(file_name(p).as_deref(), std_path.file_name().and_then(|s| s.to_str()), "{p}");
        assert_eq!(file_stem(p).as_deref(), std_path.file_stem().and_then(|s| s.to_str()), "{p}");
        let ext = std_path.extension().and_then(|s| s.to_str()).map(|e| e.to_ascii_lowercase());
        assert_eq!(ext_of(p), ext, "{p}");
    }
}

#[test]
fn paths_are_ordered_piece_by_piece() {
    assert!(path_at_most("/a/z", "/a b/c"));
    assert!(!path_at_most("/a b/c", "/a/z"));
    assert!(path_at_most("/a", "/a"));
    let sorted = sort_paths(&vec!["/a b/c".into(), "/a/z".into(), "/a/b".into()]);
    assert_eq!(sorted, vec!["/a/b", "/a/z", "/a b/c"]);
    let mut std_sorted: Vec<std::path::PathBuf> = ["/a b/c", "/a/z", "/a/b"].iter().map(|p| p.into()).collect();
    std_sorted.sort();
    assert_eq!(sorted, std_sorted.iter().map(|p| p.to_str().unwrap().to_string()).collect::<Vec<_>>());
}

#[test]
fn the_extension_picks_the_reader() {
    assert_eq!(reader_for("/x/a.M4B"), TagReader::Mp4);
    assert_eq!(reader_for("/x/a.m4a"), TagReader::Mp4);
    assert_eq!(reader_for("/x/a.mp4"), TagReader::Mp4);
    assert_eq!(reader_for("/x/a.mp3"), TagReader::General);
    assert_eq!(reader_for("/x/a"), TagReader::General);
}

#[test]
fn mp4_tags_describe_a_book() {
    let mark = |t: &str, s: u64| ChapterMark { title: t.into(), start: Duration::from_secs(s) };
    let mut found = Mp4Tags {
        tags: tags(Some("Title")),
        duration: Duration::from_secs(100),
        chapter_track: vec![mark("A", 0), mark("B", 50)],
        chapter_list: vec![mark("L", 1)],
    };
    let m = read_m4b("/books/dune.m4b", &found);
    assert_eq!(m.file_name.as_deref(), Some("dune.m4b"));
    assert_eq!(m.title.as_deref(), Some("Title"));
    assert_eq!(m.author.as_deref(), Some("Artist"));
    assert_eq!(m.reader.as_deref(), Some("Composer"));
    assert_eq!(m.album.as_deref(), Some("Album"));
    assert_eq!(m.duration, Some(Duration::from_secs(100)));
    assert_eq!(m.chapters.len(), 2);
    assert_eq!(m.chapters[1].index, 1);
    assert_eq!(m.chapters[1].title, "B");
    assert_eq!(m.chapters[1].start, Duration::from_secs(50));
    assert!(m.cover.as_ref().unwrap().is_png);
    found.chapter_track.clear();
    assert_eq!(read("/books/dune.m4b", &FileTags::Mp4(found)).chapters[0].title, "L");
}

#[test]
fn general_tags_describe_a_book() {
    let mut g = GeneralTags { primary: None, first: Some(tags(Some("First"))), duration: Duration::from_secs(5) };
    assert_eq!(read_general("/a.mp3", &g).title.as_deref(), Some("First"));
    assert!(read_general("/a.mp3", &g).chapters.is_empty());
    g.primary = Some(tags(None));
    let m = read("/a.mp3", &FileTags::General(g));
    assert_eq!(m.title, None);
    assert_eq!(m.author.as_deref(), Some("Artist"));
    let bare = read_general("/x/b.ogg", &GeneralTags { primary: None, first: None, duration: Duration::from_secs(5) });
    assert_eq!(bare.display_title(), "b.ogg");
    assert_eq!(bare.author, None);
    assert_eq!(bare.duration, Some(Duration::from_secs(5)));
    assert!(bare.cover.is_none());
}

#[test]
fn a_member_file_is_titled_by_tag_or_name() {
    let g = |t: Option<&str>| GeneralTags { primary: Some(tags(t)), first: None, duration: Duration::from_secs(7) };
    assert_eq!(track_info("/d/01 intro.mp3", &g(Some("Intro"))), ("Intro".into(), Duration::from_secs(7)));
    assert_eq!(track_info("/d/01 intro.mp3", &g(Some("  "))).0, "01 intro");
    assert_eq!(track_info("/d/01 intro.mp3", &g(None)).0, "01 intro");
    assert_eq!(track_info("/", &g(None)).0, "Track");
    assert!(is_blank(" \t\n"));
    assert!(!is_blank(" x "));
}

#[test]
fn a_folder_cover_is_named_or_first() {
    let pick = |v: Vec<&str>| folder_cover_file(&v.into_iter().map(|s| s.to_string()).collect());
    assert_eq!(pick(vec!["/d/b.png", "/d/a.JPG", "/d/notes.txt"]).as_deref(), Some("/d/a.JPG"));
    assert_eq!(pick(vec!["/d/a.jpg", "/d/Folder.jpeg", "/d/cover.png"]).as_deref(), Some("/d/Folder.jpeg"));
    assert_eq!(pick(vec!["/d/a.jpg", "/d/z/../cover.png"]).as_deref(), Some("/d/z/../cover.png"));
    assert_eq!(pick(vec!["/d/a.gif"]), None);
    assert!(folder_cover("/d/Cover.PNG", vec![1]).is_png);
    assert!(!folder_cover("/d/cover.jpg", vec![1]).is_png);
    assert_eq!(folder_cover("/d/cover.jpg", vec![4, 2]).data, vec![4, 2]);
}

#[test]
fn the_chapter_at_a_position() {
    let ch = |i: usize, s: u64| Chapter { index: i, title: String::new(), start: Duration::from_secs(s) };
    let chapters = vec![ch(0, 5), ch(1, 10), ch(2, 20)];
    assert_eq!(chapter_at(&chapters, Duration::from_secs(4)), None);
    assert_eq!(chapter_at(&chapters, Duration::from_secs(5)), Some(0));
    assert_eq!(chapter_at(&chapters, Duration::from_secs(19)), Some(1));
    assert_eq!(chapter_at(&chapters, Duration::from_secs(500)), Some(2));
    assert_eq!(chapter_at(&[], Duration::from_secs(500)), None);
}

#[test]
fn which_files_are_audiobooks() {
    for ext in ["m4b", "m4a", "mp4", "mp3", "flac", "ogg", "oga", "wav", "WAV"] {
        assert!(is_audiobook(&format!("/x/a.{ext}")));
    }
    assert!(!is_audiobook("/x/a.txt"));
    assert!(!is_audiobook("/x/mp3"));
    assert!(is_standalone("/x/a.m4b"));
    assert!(is_standalone("/x/a.MP4"));
    assert!(!is_standalone("/x/a.m4a"));
}

#[test]
fn folders_of_loose_files_become_one_book() {
    let files = vec![
        found("/r/b", "2.mp3"),
        found("/r/b", "1.mp3"),
        found("/r/b", "whole.m4b"),
        found("/r/b", "cover.jpg"),
        found("/r/a", "only.mp3"),
        found("/r", "top.mp4"),
    ];
    let steps = plan(&files);
    let shown: Vec<String> = steps
        .iter()
        .map(|s| match s {
            Step::Single(p) => format!("single {p}"),
            Step::Multi { dir, parts } => format!("multi {dir}: {}", parts.join(",")),
        })
        .collect();
    assert_eq!(
        shown,
        vec![
            "single /r/top.mp4",
            "single /r/a/only.mp3",
            "single /r/b/whole.m4b",
            "multi /r/b: /r/b/1.mp3,/r/b/2.mp3",
        ]
    );
    assert!(plan(&Vec::new()).is_empty());
}

#[test]
fn the_summary_tells_what_there_is() {
    let mut r = ImportReport::default();
    assert_eq!(r.summary(), "0 imported");
    r.imported = 12;
    r.skipped_existing = 3;
    assert_eq!(r.summary(), "12 imported, 3 already in library");
    r.failed.push(("/x".into(), "why".into()));
    assert_eq!(r.summary(), "12 imported, 3 already in library, 1 failed");
    r.skipped_existing = 0;
    assert_eq!(r.summary(), "12 imported, 1 failed");
}

#[test]
fn single_files_are_imported_skipped_or_reported() {
    let mut db = Database::open_in_memory().unwrap();
    let mut r = ImportReport::default();
    let meta = BookMeta { title: Some("T".into()), ..BookMeta::default() };
    assert!(wants_single(&db, "/a.m4b", &mut r));
    import_single_at(&mut db, "/a.m4b", Ok(meta.clone()), &mut r, 9);
    assert_eq!(r.imported, 1);
    assert!(!wants_single(&db, "/a.m4b", &mut r));
    assert_eq!(r.skipped_existing, 1);
    import_single(&mut db, "/b.m4b", Err("broken header".into()), &mut r);
    assert_eq!(r.failed, vec![("/b.m4b".to_string(), "broken header".to_string())]);
    assert!(!db.book_path_exists("/b.m4b").unwrap());
    import_single(&mut db, "/c.m4b", Ok(meta.clone()), &mut r);
    assert_eq!(r.imported, 2);
    let other = BookMeta { title: Some("Other".into()), ..BookMeta::default() };
    import_single(&mut db, "/c.m4b", Ok(other), &mut r);
    assert_eq!((r.imported, r.skipped_existing), (2, 2));
    assert!(db.list_books(Sort::Title).unwrap().iter().all(|b| b.title == "T"));
    let id = import_file(&mut db, "/d.m4b", &meta).unwrap();
    assert_eq!(db.get_book(id).unwrap().unwrap().path, "/d.m4b");
}

fn part(path: &str, info: Result<(&str, u64), &str>) -> Part {
    Part {
        path: path.into(),
        info: match info {
            Ok((t, s)) => Ok((t.into(), Duration::from_secs(s))),
            Err(e) => Err(e.into()),
        },
    }
}

#[test]
fn a_folder_is_imported_as_one_book() {
    let mut db = Database::open_in_memory().unwrap();
    let mut r = ImportReport::default();
    db.upsert_book_at("/d/1.mp3", &BookMeta::default(), 1).unwrap();
    let names: Vec<String> = vec!["/d/1.mp3".into(), "/d/2.mp3".into(), "/d/3.mp3".into()];
    assert!(wants_multi(&mut db, "/d", &names, &mut r));
    assert!(!db.book_path_exists("/d/1.mp3").unwrap());
    let parts = vec![
        part("/d/1.mp3", Ok(("One", 60))),
        part("/d/2.mp3", Err("no header")),
        part("/d/3.mp3", Ok(("Three", 30))),
    ];
    assert!(lengths_fit(&parts));
    let header = Some(BookMeta {
        title: Some("Title".into()),
        author: Some("Author".into()),
        reader: Some("Reader".into()),
        album: Some("Album".into()),
        ..BookMeta::default()
    });
    let cover = Some(Cover { data: vec![7], is_png: false });
    import_multi_at(&mut db, "/d", &header, &cover, &parts, &mut r, 4);
    assert_eq!(r.imported, 1);
    assert_eq!(r.failed, vec![("/d/2.mp3".to_string(), "no header".to_string())]);
    let b = db.list_books(Sort::Title).unwrap().remove(0);
    assert_eq!(b.path, "/d");
    assert_eq!(b.title, "Album");
    assert_eq!(b.author.as_deref(), Some("Author"));
    assert_eq!(b.reader.as_deref(), Some("Reader"));
    assert_eq!(b.duration, Duration::from_secs(90));
    assert_eq!(b.cover.as_ref().unwrap().data, vec![7]);
    assert_eq!(b.added_at, 4);
    let t = db.tracks(b.id).unwrap();
    assert_eq!(t.len(), 2);
    assert_eq!((t[0].idx, t[1].idx), (0, 1));
    assert_eq!(t[0].start, Duration::zero());
    assert_eq!(t[1].start, Duration::from_secs(60));
    assert_eq!(t[1].title, "Three");
    // The folder is known now.
    assert!(!wants_multi(&mut db, "/d", &names, &mut r));
    assert_eq!(r.skipped_existing, 1);
    import_multi_at(&mut db, "/d", &None, &None, &parts, &mut r, 5);
    assert_eq!((r.imported, r.skipped_existing, r.failed.len()), (1, 2, 1));
    assert_eq!(db.list_books(Sort::Title).unwrap()[0].title, "Album");
}

/// Import what is found, as if some of it could not be read.
fn scan(db: &mut Database, files: &Vec<FoundFile>, now: i64) -> ImportReport {
    let mut r = ImportReport::default();
    let why = |p: &str| if p.contains("bad") { Err(format!("{p} is broken")) } else { Ok(()) };
    for step in plan(files) {
        match step {
            Step::Single(p) => {
                let meta = BookMeta { title: Some(p.clone()), ..BookMeta::default() };
                import_single_at(db, &p, why(&p).map(|_| meta), &mut r, now);
            }
            Step::Multi { dir, parts } => {
                let parts: Vec<Part> = parts
                    .into_iter()
                    .map(|p| Part { info: why(&p).map(|_| (p.clone(), Duration::from_secs(10))), path: p })
                    .collect();
                import_multi_at(db, &dir, &None, &None, &parts, &mut r, now);
            }
        }
    }
    r
}

#[test]
fn a_second_scan_changes_nothing() {
    let file = |d: &str, p: &str| FoundFile { dir: d.into(), path: format!("{d}/{p}") };
    let files = vec![
        file("/r", "one.m4b"),
        file("/r", "bad.m4b"),
        file("/r/a", "1.mp3"),
        file("/r/a", "2 bad.mp3"),
        file("/r/a", "3.mp3"),
        file("/r/b", "bad1.mp3"),
        file("/r/b", "bad2.mp3"),
        file("/r/c", "only.mp3"),
    ];
    let mut db = Database::open_in_memory().unwrap();
    db.upsert_book_at("/r/a/1.mp3", &BookMeta::default(), 1).unwrap();
    let kept = db.upsert_book_at("/r/c/only.mp3", &BookMeta::default(), 1).unwrap();
    db.update_position_at(kept, Duration::from_secs(7), false, 2).unwrap();
    let first = scan(&mut db, &files, 10);
    assert_eq!((first.imported, first.skipped_existing), (2, 1));
    assert_eq!(first.failed.len(), 4);
    let books = |db: &Database| format!("{:?}", db.list_books(Sort::Title).unwrap());
    let before = books(&db);
    let second = scan(&mut db, &files, 20);
    assert_eq!((second.imported, second.skipped_existing), (0, 3));
    assert_eq!(second.failed.len(), 3);
    assert!(second.failed.iter().all(|f| first.failed.contains(f)));
    assert_eq!(books(&db), before);
    assert_eq!(db.get_book(kept).unwrap().unwrap().position, Duration::from_secs(7));
    assert!(!db.book_path_exists("/r/a/1.mp3").unwrap());
}

#[test]
fn a_folder_book_is_titled_by_its_folder_at_last() {
    let mut db = Database::open_in_memory().unwrap();
    let mut r = ImportReport::default();
    let parts = vec![part("/books/Dune/1.mp3", Ok(("1", 1)))];
    import_multi(&mut db, "/books/Dune", &None, &None, &parts, &mut r);
    let blank = Some(BookMeta { title: Some("Kept".into()), album: Some("  ".into()), ..BookMeta::default() });
    import_multi(&mut db, "/books/Emma", &blank, &None, &parts, &mut r);
    let titled = Some(BookMeta { title: Some("By title".into()), ..BookMeta::default() });
    import_multi(&mut db, "/books/Other", &titled, &None, &parts, &mut r);
    import_multi(&mut db, "/", &None, &None, &parts, &mut r);
    let mut titles: Vec<String> = db.list_books(Sort::RecentlyAdded).unwrap().into_iter().map(|b| b.title).collect();
    titles.sort();
    assert_eq!(titles, vec!["Audiobook", "By title", "Dune", "Emma"]);
}

#[test]
fn a_folder_without_a_readable_file_is_not_imported() {
    let mut db = Database::open_in_memory().unwrap();
    let mut r = ImportReport::default();
    import_multi(&mut db, "/d", &None, &None, &vec![part("/d/1.mp3", Err("x"))], &mut r);
    assert_eq!(r.imported, 0);
    assert_eq!(r.failed.len(), 1);
    assert!(db.list_books(Sort::Title).unwrap().is_empty());
}

#[test]
fn lengths_beyond_the_longest_span_do_not_fit() {
    let parts = vec![part("/1", Ok(("", u64::MAX))), part("/2", Err("e")), part("/3", Ok(("", 1)))];
    assert!(!lengths_fit(&parts));
    assert!(lengths_fit(&parts[..2].iter().map(|p| part(&p.path, Ok(("", 1)))).collect()));
}

#[test]
fn a_cover_is_decoded() {
    let bytes: Vec<u8> = vec![255, 0, 0, 255, 0, 255, 0, 128];
    let img = image::RgbaImage::from_raw(2, 1, bytes.clone()).unwrap();
    let mut png = std::io::Cursor::new(Vec::new());
    image::DynamicImage::ImageRgba8(img).write_to(&mut png, image::ImageFormat::Png).unwrap();
    let cover = Cover { data: png.into_inner(), is_png: true };
    let p = load_cover(&cover).unwrap();
    assert_eq!((p.width, p.height), (2, 1));
    assert_eq!(p.rgba, bytes);
    assert!(load_cover(&Cover { data: vec![1, 2, 3], is_png: true }).is_none());
    assert!(pixels(None).is_none());
    assert_eq!(pixels(Some((1, 1, vec![1, 2, 3, 4]))).unwrap().rgba, vec![1, 2, 3, 4]);
}
