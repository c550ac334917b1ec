use some_audiobook_player::browse::{
    any_contains, book_group_name, book_is_visible, book_matches, chapter_label, count_label, group_counts, needle,
    pick_star, sort_label, timeline_headings, Category, LibView,
};
use some_audiobook_player::dates::{civil_from_epoch, days_from_civil, fmt_date, fmt_month, parse_date};
use some_audiobook_player::icons;
use some_audiobook_player::library::db::Sort;
use some_audiobook_player::library::{Book, Chapter, HistoryEntry};
use some_audiobook_player::text::{contains, decimal_string, trim, truncate};
use some_audiobook_player::time::Duration;

fn book(title: &str, author: Option<&str>, reader: Option<&str>) -> Book {
    Book {
        id: 1,
        path: format!("/{title}"),
        title: title.into(),
        author: author.map(|s| s.into()),
        reader: reader.map(|s| s.into()),
        duration: Duration::zero(),
        chapter_count: 0,
        cover: None,
        position: Duration::zero(),
        finished: false,
        speed_bits: 1.0f32.to_bits(),
        is_multi: false,
        added_at: 0,
        last_played: None,
    }
}

#[test]
fn layouts_and_categories_are_remembered_by_key() {
    for v in [LibView::Icons, LibView::Compact, LibView::Details] {
        assert_eq!(LibView::from_key(v.as_key()), v);
    }
    assert_eq!(LibView::from_key("grid"), LibView::Icons);
    for c in [Category::Books, Category::Authors, Category::Readers, Category::History] {
        assert_eq!(Category::from_key(c.as_key()), c);
    }
    assert_eq!(Category::from_key("?"), Category::Books);
    assert_eq!(LibView::Compact.label(), "Compact");
    assert_eq!(LibView::Details.icon(), icons::LIST_BULLETS);
    assert_eq!(Category::History.label(), "My History");
    assert_eq!(Category::Readers.icon(), icons::MICROPHONE);
    assert_eq!(sort_label(Sort::RecentlyPlayed), "Recently played");
    assert_eq!(sort_label(Sort::Author), "Author");
}

#[test]
fn books_are_grouped_by_trimmed_name() {
    assert_eq!(book_group_name(&book("t", Some("  Ann  "), None), false), "Ann");
    assert_eq!(book_group_name(&book("t", Some("  "), None), false), "Unknown");
    assert_eq!(book_group_name(&book("t", None, Some("Bo")), true), "Bo");
    assert_eq!(book_group_name(&book("t", None, None), true), "Unknown");
}

#[test]
fn groups_are_counted_and_sorted_by_name() {
    let books = vec![
        book("1", Some("zoe"), None),
        book("2", Some("Ann"), None),
        book("3", None, None),
        book("4", Some(" Ann"), None),
    ];
    let groups: Vec<(String, usize)> = group_counts(&books, false).into_iter().map(|g| (g.name, g.count)).collect();
    assert_eq!(groups, vec![("Ann".into(), 2), ("Unknown".into(), 1), ("zoe".into(), 1)]);
    assert_eq!(groups.iter().map(|g| g.1).sum::<usize>(), books.len());
    assert_eq!(group_counts(&books, true).len(), 1);
}

#[test]
fn searching_ignores_case() {
    let b = book("The Hobbit", Some("J.R.R. Tolkien"), Some("Rob INGLIS"));
    assert!(book_matches(&b, "hobbit"));
    assert!(book_matches(&b, "tolk"));
    assert!(book_matches(&b, "inglis"));
    assert!(!book_matches(&b, "Hobbit"));
    assert!(!book_matches(&b, "dune"));
    assert!(!book_matches(&book("x", None, None), "y"));
    assert_eq!(needle("  HoBBit "), "hobbit");
    assert_eq!(needle("\u{130}"), "i\u{307}");
    assert!(any_contains("abc", &None, &Some("def".into()), "ef"));
    assert!(!any_contains("abc", &Some("x".into()), &None, "ef"));
}

#[test]
fn search_and_choices_filter_together() {
    let b = book("The Hobbit", Some("Tolkien"), Some("Inglis"));
    let some = |s: &str| Some(s.to_string());
    assert!(book_is_visible(&b, "", &None, &None));
    assert!(book_is_visible(&b, "hob", &some("Tolkien"), &some("Inglis")));
    assert!(!book_is_visible(&b, "hob", &some("Other"), &None));
    assert!(!book_is_visible(&b, "hob", &None, &some("Other")));
    assert!(!book_is_visible(&b, "dune", &None, &None));
}

#[test]
fn labels() {
    let ch = Chapter { index: 8, title: "Nine".into(), start: Duration::from_secs(3_725) };
    assert_eq!(chapter_label(&ch), " 9.    1:02:05   Nine");
    assert_eq!(chapter_label(&ch), format!("{:>2}.  {:>9}   {}", 9, "1:02:05", "Nine"));
    assert_eq!(count_label(3, " bookmark(s)"), "3 bookmark(s)");
    assert_eq!(truncate("abcdef", 6), "abcdef");
    assert_eq!(truncate("abcdef", 4), "abc\u{2026}");
    assert_eq!(truncate("abc", 0), "\u{2026}");
    assert_eq!(decimal_string(1_234_567), "1234567");
    assert_eq!(trim("\u{a0} x \t"), "x");
    assert!(contains("abcabd", "abd") && contains("abc", "") && !contains("ab", "abc"));
}

#[test]
fn stars_are_picked_and_cleared() {
    assert_eq!(pick_star(None, 3), 3);
    assert_eq!(pick_star(Some(2), 3), 3);
    assert_eq!(pick_star(Some(3), 3), 0);
}

fn entry(last_played: Option<i64>) -> HistoryEntry {
    HistoryEntry {
        id: 1,
        book_key: String::new(),
        keyed: false,
        title: String::new(),
        author: None,
        reader: None,
        cover: None,
        rating: None,
        note: String::new(),
        first_played: None,
        last_played,
        finished: false,
        added_manually: false,
    }
}

#[test]
fn the_timeline_is_headed_by_months() {
    let day = 86_400;
    let history = vec![entry(Some(40 * day)), entry(Some(35 * day)), entry(Some(day)), entry(None), entry(None)];
    let heads: Vec<Option<String>> = timeline_headings(&history);
    assert_eq!(
        heads,
        vec![Some("February 1970".into()), None, Some("January 1970".into()), Some("Unknown date".into()), None]
    );
}

#[test]
fn dates_are_written_and_read() {
    assert_eq!(fmt_date(Some(0)).as_deref(), Some("1970-01-01"));
    assert_eq!(fmt_date(Some(951_782_400)).as_deref(), Some("2000-02-29"));
    assert_eq!(fmt_date(Some(-1)).as_deref(), Some("1969-12-31"));
    assert_eq!(fmt_date(None), None);
    assert_eq!(parse_date("2000-02-29"), Some(951_782_400));
    assert_eq!(parse_date(" 1970 - 1 - 2 "), Some(86_400));
    assert_eq!(parse_date("1970-13-01"), None);
    assert_eq!(parse_date("1970-00-01"), None);
    assert_eq!(parse_date("1970-01-32"), None);
    assert_eq!(parse_date("1970-01"), None);
    assert_eq!(parse_date("1970-01-01-01"), None);
    assert_eq!(parse_date("x-01-01"), None);
    assert_eq!(parse_date(""), None);
    assert_eq!(parse_date("9223372036854775807-01-01"), None);
    assert_eq!(fmt_month(Some(0)), "January 1970");
    assert_eq!(fmt_month(None), "Unknown date");
    assert_eq!(civil_from_epoch(1_700_000_000), (2023, 11, 14));
    assert_eq!(days_from_civil(2023, 11, 14), 19_675);
    for epoch in [-62_135_596_800i64, -86_400, 0, 86_399, 1_700_000_000, 253_402_300_799] {
        let shown = fmt_date(Some(epoch)).unwrap();
        assert_eq!(parse_date(&shown), Some(epoch.div_euclid(86_400) * 86_400), "{shown}");
    }
}
