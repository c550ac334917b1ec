//! Browsing the library: layouts and categories, grouping by author or reader,
//! searching, and the labels that the views show.

use vstd::prelude::*;

use crate::dates::{fmt_month, month_text};
use crate::icons;
use crate::library::tables::{filter_all, Sort};
use crate::library::{views, Book, BookView, Chapter, HistoryEntry, HistoryView};
use crate::order::{
    codes, is_listing, key_less, key_order, listed_again, listed_new, listing, listing_exists, listing_is, text_before,
    text_first, text_order, KeyView,
};
use crate::text;
use crate::text::{decimal, left_padded, lowercase, occurs_in, trimmed};
use crate::time::{fmt_hms, hms_text};

verus! {

// ---- layouts and categories ------------------------------------------------

/// Library layout, à la Dolphin: cover grid, compact list, or details list.
#[derive(Debug, Clone, Copy, PartialEq, Eq, Structural)]
pub enum LibView {
    Icons,
    Compact,
    Details,
}

impl LibView {
    /// The name of the layout.
    pub open spec fn name(self) -> Seq<char> {
        match self {
            LibView::Icons => "Icons"@,
            LibView::Compact => "Compact"@,
            LibView::Details => "Details"@,
        }
    }

    /// The key under which the layout is remembered.
    pub open spec fn key(self) -> Seq<char> {
        match self {
            LibView::Icons => "icons"@,
            LibView::Compact => "compact"@,
            LibView::Details => "details"@,
        }
    }

    /// The layout that a key stands for; any unknown one stands for the icons.
    pub open spec fn of_key(s: Seq<char>) -> LibView {
        if s == "compact"@ {
            LibView::Compact
        } else if s == "details"@ {
            LibView::Details
        } else {
            LibView::Icons
        }
    }

    /// The name of the layout.
    pub fn label(self) -> (r: &'static str)
        ensures
            r@ == self.name(),
    {
        match self {
            LibView::Icons => "Icons",
            LibView::Compact => "Compact",
            LibView::Details => "Details",
        }
    }

    /// The icon of the layout.
    pub fn icon(self) -> (r: &'static str)
        ensures
            r == match self {
                LibView::Icons => icons::SQUARES_FOUR,
                LibView::Compact => icons::ROWS,
                LibView::Details => icons::LIST_BULLETS,
            },
    {
        match self {
            LibView::Icons => icons::SQUARES_FOUR,
            LibView::Compact => icons::ROWS,
            LibView::Details => icons::LIST_BULLETS,
        }
    }

    /// The key under which the layout is remembered.
    pub fn as_key(self) -> (r: &'static str)
        ensures
            r@ == self.key(),
    {
        match self {
            LibView::Icons => "icons",
            LibView::Compact => "compact",
            LibView::Details => "details",
        }
    }

    /// The layout that a key stands for.
    pub fn from_key(s: &str) -> (r: LibView)
        ensures
            r == LibView::of_key(s@),
    {
        if text::same(s, "compact") {
            LibView::Compact
        } else if text::same(s, "details") {
            LibView::Details
        } else {
            LibView::Icons
        }
    }
}

/// Library browsing category: all books, grouped by author or reader, or the
/// "My History" timeline.
#[derive(Debug, Clone, Copy, PartialEq, Eq, Structural)]
pub enum Category {
    Books,
    Authors,
    Readers,
    History,
}

impl Category {
    /// The name of the category.
    pub open spec fn name(self) -> Seq<char> {
        match self {
            Category::Books => "Books"@,
            Category::Authors => "Authors"@,
            Category::Readers => "Readers"@,
            Category::History => "My History"@,
        }
    }

    /// The key under which the category is remembered.
    pub open spec fn key(self) -> Seq<char> {
        match self {
            Category::Books => "books"@,
            Category::Authors => "authors"@,
            Category::Readers => "readers"@,
            Category::History => "history"@,
        }
    }

    /// The category that a key stands for; any unknown one stands for all books.
    pub open spec fn of_key(s: Seq<char>) -> Category {
        if s == "authors"@ {
            Category::Authors
        } else if s == "readers"@ {
            Category::Readers
        } else if s == "history"@ {
            Category::History
        } else {
            Category::Books
        }
    }

    /// The name of the category.
    pub fn label(self) -> (r: &'static str)
        ensures
            r@ == self.name(),
    {
        match self {
            Category::Books => "Books",
            Category::Authors => "Authors",
            Category::Readers => "Readers",
            Category::History => "My History",
        }
    }

    /// The icon of the category.
    pub fn icon(self) -> (r: &'static str)
        ensures
            r == match self {
                Category::Books => icons::BOOKS,
                Category::Authors => icons::USERS,
                Category::Readers => icons::MICROPHONE,
                Category::History => icons::CLOCK_COUNTER_CLOCKWISE,
            },
    {
        match self {
            Category::Books => icons::BOOKS,
            Category::Authors => icons::USERS,
            Category::Readers => icons::MICROPHONE,
            Category::History => icons::CLOCK_COUNTER_CLOCKWISE,
        }
    }

    /// The key under which the category is remembered.
    pub fn as_key(self) -> (r: &'static str)
        ensures
            r@ == self.key(),
    {
        match self {
            Category::Books => "books",
            Category::Authors => "authors",
            Category::Readers => "readers",
            Category::History => "history",
        }
    }

    /// The category that a key stands for.
    pub fn from_key(s: &str) -> (r: Category)
        ensures
            r == Category::of_key(s@),
    {
        if text::same(s, "authors") {
            Category::Authors
        } else if text::same(s, "readers") {
            Category::Readers
        } else if text::same(s, "history") {
            Category::History
        } else {
            Category::Books
        }
    }
}

/// A layout or category that was remembered is the one that comes back.
pub proof fn keys_read_back(v: LibView, c: Category)
    ensures
        LibView::of_key(v.key()) == v,
        Category::of_key(c.key()) == c,
{
    reveal_strlit("icons");
    reveal_strlit("compact");
    reveal_strlit("details");
    reveal_strlit("books");
    reveal_strlit("authors");
    reveal_strlit("readers");
    reveal_strlit("history");
    assert("icons"@.len() != "compact"@.len() && "icons"@.len() != "details"@.len());
    assert("compact"@[0] != "details"@[0]);
    assert("books"@.len() != "authors"@.len());
    assert("books"@.len() != "readers"@.len());
    assert("books"@.len() != "history"@.len());
    assert("authors"@[0] != "readers"@[0]);
    assert("authors"@[0] != "history"@[0]);
    assert("readers"@[0] != "history"@[0]);
}

/// The name of an order.
pub fn sort_label(sort: Sort) -> (r: &'static str)
    ensures
        r@ == match sort {
            Sort::Title => "Title"@,
            Sort::Author => "Author"@,
            Sort::RecentlyAdded => "Recently added"@,
            Sort::RecentlyPlayed => "Recently played"@,
        },
{
    match sort {
        Sort::Title => "Title",
        Sort::Author => "Author",
        Sort::RecentlyAdded => "Recently added",
        Sort::RecentlyPlayed => "Recently played",
    }
}

// ---- authors and readers ---------------------------------------------------

/// The author (or reader) display name for a book, "Unknown" if unset.
pub open spec fn group_name(book: BookView, reader: bool) -> Seq<char> {
    let raw = if reader { book.reader } else { book.author };
    if raw is Some && trimmed(raw->Some_0).len() > 0 {
        trimmed(raw->Some_0)
    } else {
        "Unknown"@
    }
}

fn shown_name(raw: &Option<String>) -> (r: String)
    ensures
        r@ == if *raw is Some && trimmed((*raw)->Some_0@).len() > 0 {
            trimmed((*raw)->Some_0@)
        } else {
            "Unknown"@
        },
{
    match raw {
        Some(s) => {
            let t = text::trim(s.as_str());
            if t.as_str().unicode_len() > 0 {
                t
            } else {
                "Unknown".to_owned()
            }
        },
        None => "Unknown".to_owned(),
    }
}

/// The author (or reader) display name for a book, "Unknown" if unset.
pub fn book_group_name(book: &Book, reader: bool) -> (r: String)
    ensures
        r@ == group_name(book@, reader),
{
    if reader {
        shown_name(&book.reader)
    } else {
        shown_name(&book.author)
    }
}

/// What names are ordered by.
pub open spec fn name_key(name: Seq<char>) -> KeyView {
    KeyView { first: codes(name), second: Seq::empty(), last: 0 }
}

/// The names of all books' authors (or readers).
pub open spec fn names_of(books: Seq<BookView>, reader: bool) -> Seq<Seq<char>> {
    books.map_values(|b: BookView| group_name(b, reader))
}

/// How many of the names are this one.
pub open spec fn times(names: Seq<Seq<char>>, name: Seq<char>) -> nat {
    names.filter(|n: Seq<char>| n == name).len()
}

/// Distinct names with how often they occur, sorted by name.
pub open spec fn counted(names: Seq<Seq<char>>) -> Seq<(Seq<char>, nat)> {
    listing(names, |n: Seq<char>| name_key(n)).map_values(|n: Seq<char>| (n, times(names, n)))
}

/// A name with how many books are under it.
#[derive(Debug)]
pub struct Group {
    pub name: String,
    pub count: usize,
}

impl View for Group {
    type V = (Seq<char>, nat);

    open spec fn view(&self) -> (Seq<char>, nat) {
        (self.name@, self.count as nat)
    }
}

proof fn times_one_more(names: Seq<Seq<char>>, x: Seq<char>, name: Seq<char>)
    ensures
        times(names.push(x), name) == times(names, name) + if x == name { 1nat } else { 0nat },
{
    let p = |n: Seq<char>| n == name;
    reveal(Seq::filter);
    assert(names.push(x).drop_last() =~= names);
    assert(p(x) == (x == name));
}

proof fn times_at_most(names: Seq<Seq<char>>, name: Seq<char>)
    ensures
        times(names, name) <= names.len(),
        !names.contains(name) ==> times(names, name) == 0,
    decreases names.len(),
{
    if names.len() == 0 {
        reveal(Seq::filter);
    } else {
        let t = names.drop_last();
        times_at_most(t, name);
        times_one_more(t, names.last(), name);
        assert(t.push(names.last()) =~= names);
        if !names.contains(name) {
            assert(names[names.len() - 1] != name);
            if t.contains(name) {
                let k = choose|k: int| 0 <= k < t.len() && t[k] == name;
                assert(names[k] == name);
            }
        }
    }
}

/// The names of counted groups.
pub open spec fn group_names(groups: Seq<Group>) -> Seq<Seq<char>> {
    groups.map_values(|g: Group| g.name@)
}

/// Distinct author/reader names with their book counts, sorted by name.
pub fn group_counts(books: &Vec<Book>, reader: bool) -> (r: Vec<Group>)
    ensures
        views(r@) == counted(names_of(views(books@), reader)),
        is_listing(names_of(views(books@), reader), |n: Seq<char>| name_key(n), group_names(r@)),
{
    let ghost names = names_of(views(books@), reader);
    let ghost key = |n: Seq<char>| name_key(n);
    let mut out: Vec<Group> = Vec::new();
    let mut n: usize = 0;
    proof {
        assert(names.take(0) =~= Seq::empty());
        assert(group_names(out@) =~= Seq::empty());
    }
    while n < books.len()
        invariant
            n <= books.len(),
            names == names_of(views(books@), reader),
            names.len() == books.len(),
            key == (|n: Seq<char>| name_key(n)),
            is_listing(names.take(n as int), key, group_names(out@)),
            forall|i: int| 0 <= i < out.len() ==> (#[trigger] out@[i]).count == times(names.take(n as int), out@[i].name@),
        decreases books.len() - n,
    {
        let name = book_group_name(&books[n], reader);
        let ghost few = names.take(n as int);
        proof {
            assert(views(books@)[n as int] == books@[n as int]@);
            assert(names[n as int] == name@);
            assert(names.take(n + 1) =~= few.push(name@));
        }
        let mut at: usize = 0;
        while at < out.len() && text_first(out[at].name.as_str(), name.as_str())
            invariant
                at <= out.len(),
                forall|i: int| 0 <= i < at ==> text_before((#[trigger] out@[i]).name@, name@),
            decreases out.len() - at,
        {
            at = at + 1;
        }
        let ghost before = out@;
        let ghost listed = group_names(before);
        if at < out.len() && text::same(out[at].name.as_str(), name.as_str()) {
            proof {
                times_at_most(few, name@);
                assert(listed[at as int] == name@);
                listed_again(few, key, listed, name@);
            }
            let count: usize = out[at].count;
            out.set(at, Group { name, count: count + 1 });
            proof {
                assert(group_names(out@) =~= listed);
                assert forall|i: int| 0 <= i < out.len() implies (#[trigger] out@[i]).count == times(
                    names.take(n + 1),
                    out@[i].name@,
                ) by {
                    times_one_more(few, names[n as int], out@[i].name@);
                    if i != at {
                        assert(out@[i] == before[i]);
                        name_differs(few, listed, i, at as int);
                    }
                }
            }
        } else {
            proof {
                if at < out.len() {
                    text_order(before[at as int].name@, name@);
                }
                assert forall|i: int| 0 <= i < at implies key_less(key(#[trigger] listed[i]), key(name@)) by {
                    assert(text_before(before[i].name@, name@));
                }
                listed_new(few, key, listed, at as int, name@);
                if few.contains(name@) {
                    let k = choose|k: int| 0 <= k < few.len() && few[k] == name@;
                    assert(listed.contains(few[k]));
                    let m = choose|m: int| 0 <= m < listed.len() && listed[m] == name@;
                    text_order(name@, name@);
                    if m < at {
                        assert(text_before(before[m].name@, name@));
                    } else if m > at {
                        assert(key_less(key(listed[at as int]), key(listed[m])));
                        key_order(key(listed[at as int]), key(listed[m]));
                        key_order(key(name@), key(listed[at as int]));
                    }
                    assert(false);
                }
                times_at_most(few, name@);
                times_one_more(few, name@, name@);
            }
            let ghost added = name@;
            out.insert(at, Group { name, count: 1 });
            proof {
                assert(group_names(out@) =~= listed.insert(at as int, added));
                assert forall|i: int| 0 <= i < out.len() implies (#[trigger] out@[i]).count == times(
                    names.take(n + 1),
                    out@[i].name@,
                ) by {
                    if i != at {
                        let i0 = if i < at { i } else { i - 1 };
                        assert(out@[i] == before[i0]);
                        times_one_more(few, added, before[i0].name@);
                        if before[i0].name@ == added {
                            assert(listed[i0] == added);
                            assert(few.contains(listed[i0]));
                        }
                    }
                }
            }
        }
        n = n + 1;
    }
    proof {
        assert(names.take(n as int) =~= names);
        listing_is(names, key, group_names(out@));
        assert(views(out@) =~= counted(names)) by {
            assert forall|i: int| 0 <= i < out.len() implies views(out@)[i] == counted(names)[i] by {
                assert(group_names(out@)[i] == out@[i].name@);
                assert(out@[i].count == times(names, out@[i].name@));
            }
        }
    }
    out
}

proof fn name_differs(rows: Seq<Seq<char>>, listed: Seq<Seq<char>>, i: int, j: int)
    requires
        is_listing(rows, |n: Seq<char>| name_key(n), listed),
        0 <= i < listed.len(),
        0 <= j < listed.len(),
        i != j,
    ensures
        listed[i] != listed[j],
{
    let key = |n: Seq<char>| name_key(n);
    if i < j {
        assert(key_less(key(listed[i]), key(listed[j])));
        key_order(key(listed[i]), key(listed[j]));
    } else {
        assert(key_less(key(listed[j]), key(listed[i])));
        key_order(key(listed[j]), key(listed[i]));
    }
}

/// How many books there are in all groups together.
pub open spec fn total_count(groups: Seq<(Seq<char>, nat)>) -> nat
    decreases groups.len(),
{
    if groups.len() == 0 {
        0
    } else {
        total_count(groups.drop_last()) + groups.last().1
    }
}

proof fn counts_of_first(names: Seq<Seq<char>>, listed: Seq<Seq<char>>, n: int)
    requires
        forall|i: int, j: int| 0 <= i < j < listed.len() ==> listed[i] != listed[j],
        0 <= n <= listed.len(),
    ensures
        total_count(listed.take(n).map_values(|m: Seq<char>| (m, times(names, m)))) == names.filter(
            |m: Seq<char>| listed.take(n).contains(m),
        ).len(),
    decreases n,
{
    let f = |m: Seq<char>| (m, times(names, m));
    let within = |m: Seq<char>| listed.take(n).contains(m);
    if n == 0 {
        crate::library::tables::filter_from(names, within);
        let kept = names.filter(within);
        if kept.len() > 0 {
            assert(within(kept[0]));
        }
        assert(listed.take(0).map_values(f) =~= Seq::empty());
    } else {
        counts_of_first(names, listed, n - 1);
        let few = listed.take(n - 1);
        let before = |m: Seq<char>| few.contains(m);
        let here = |m: Seq<char>| m == listed[n - 1];
        let g = listed.take(n).map_values(f);
        assert(g.drop_last() =~= listed.take(n - 1).map_values(f));
        assert forall|m: Seq<char>| #[trigger] within(m) == (before(m) || here(m)) by {
            if few.contains(m) {
                let k = choose|k: int| 0 <= k < few.len() && few[k] == m;
                assert(listed.take(n)[k] == m);
            }
            if m == listed[n - 1] {
                assert(listed.take(n)[n - 1] == m);
            }
            if listed.take(n).contains(m) && m != listed[n - 1] {
                let more = listed.take(n);
                let k = choose|k: int| 0 <= k < more.len() && more[k] == m;
                assert(few[k] == m);
            }
        }
        assert forall|m: Seq<char>| !(#[trigger] before(m) && here(m)) by {
            if before(m) && here(m) {
                let k = choose|k: int| 0 <= k < few.len() && few[k] == m;
                assert(listed[k] != listed[n - 1]);
            }
        }
        kinds_add_up(names, before, here, within);
    }
}

proof fn kinds_add_up<T>(s: Seq<T>, p: spec_fn(T) -> bool, q: spec_fn(T) -> bool, all: spec_fn(T) -> bool)
    requires
        forall|x: T| #[trigger] all(x) == (p(x) || q(x)),
        forall|x: T| !(#[trigger] p(x) && q(x)),
    ensures
        s.filter(all).len() == s.filter(p).len() + s.filter(q).len(),
    decreases s.len(),
{
    reveal(Seq::filter);
    if s.len() > 0 {
        kinds_add_up(s.drop_last(), p, q, all);
        assert(all(s.last()) == (p(s.last()) || q(s.last())));
        assert(!(p(s.last()) && q(s.last())));
    }
}

/// Every book is counted under one author (or reader): the counts add up to the
/// number of books.
pub proof fn every_book_is_counted(books: Seq<BookView>, reader: bool)
    ensures
        total_count(counted(names_of(books, reader))) == books.len(),
{
    let names = names_of(books, reader);
    let key = |n: Seq<char>| name_key(n);
    assert forall|a: Seq<char>, b: Seq<char>| #[trigger] key(a) == #[trigger] key(b) implies a == b by {
        text_order(a, b);
        key_order(key(a), key(b));
    }
    listing_exists(names, key);
    let listed = listing(names, key);
    assert forall|i: int, j: int| 0 <= i < j < listed.len() implies listed[i] != listed[j] by {
        name_differs(names, listed, i, j);
    }
    let n = listed.len() as int;
    counts_of_first(names, listed, n);
    assert(listed.take(n) =~= listed);
    let within = |m: Seq<char>| listed.take(n).contains(m);
    assert forall|i: int| 0 <= i < names.len() implies within(#[trigger] names[i]) by {
        assert(listed.contains(names[i]));
    }
    filter_all(names, within);
}

/// The choice after a name in the sidebar was clicked: it, or nothing where it
/// was chosen already.
pub open spec fn toggled(chosen: Option<Seq<char>>, name: Seq<char>) -> Option<Seq<char>> {
    if chosen == Some(name) {
        None
    } else {
        Some(name)
    }
}

// ---- searching -------------------------------------------------------------

/// Whether any of three texts holds the needle.
pub open spec fn holds_needle(title: Seq<char>, author: Option<Seq<char>>, reader: Option<Seq<char>>, needle: Seq<char>) -> bool {
    ||| occurs_in(needle, title)
    ||| author is Some && occurs_in(needle, author->Some_0)
    ||| reader is Some && occurs_in(needle, reader->Some_0)
}

/// The lower case of a text that may be missing.
pub open spec fn lowercase_of(o: Option<Seq<char>>) -> Option<Seq<char>> {
    match o {
        Some(s) => Some(lowercase(s)),
        None => None,
    }
}

/// Whether title, author or reader of a book hold the needle, in lower case.
pub open spec fn matches(book: BookView, needle: Seq<char>) -> bool {
    holds_needle(lowercase(book.title), lowercase_of(book.author), lowercase_of(book.reader), needle)
}

/// Whether any of three texts holds the needle.
pub fn any_contains(title: &str, author: &Option<String>, reader: &Option<String>, needle: &str) -> (r: bool)
    ensures
        r == holds_needle(
            title@,
            crate::library::text_of(*author),
            crate::library::text_of(*reader),
            needle@,
        ),
{
    if text::contains(title, needle) {
        return true;
    }
    match author {
        Some(a) => {
            if text::contains(a.as_str(), needle) {
                return true;
            }
        },
        None => {},
    }
    match reader {
        Some(r) => text::contains(r.as_str(), needle),
        None => false,
    }
}

fn lower_of(o: &Option<String>) -> (r: Option<String>)
    ensures
        crate::library::text_of(r) == lowercase_of(crate::library::text_of(*o)),
{
    match o {
        Some(s) => Some(s.as_str().to_lowercase()),
        None => None,
    }
}

/// Whether title, author or reader of a book hold the needle, in lower case.
pub fn book_matches(book: &Book, needle: &str) -> (r: bool)
    ensures
        r == matches(book@, needle@),
{
    let title = book.title.as_str().to_lowercase();
    any_contains(title.as_str(), &lower_of(&book.author), &lower_of(&book.reader), needle)
}

/// Whether a book is shown: it matches what is searched for, if anything is, and
/// belongs to the author and reader chosen, if any are.
pub open spec fn is_visible(book: BookView, needle: Seq<char>, author: Option<Seq<char>>, reader: Option<Seq<char>>) -> bool {
    &&& needle.len() == 0 || matches(book, needle)
    &&& author is None || group_name(book, false) == author->Some_0
    &&& reader is None || group_name(book, true) == reader->Some_0
}

/// What is searched for: the text in the search field, without white space
/// around it and in lower case.
pub open spec fn needle_of(search: Seq<char>) -> Seq<char> {
    lowercase(trimmed(search))
}

/// What is searched for.
pub fn needle(search: &str) -> (r: String)
    ensures
        r@ == needle_of(search@),
{
    text::trim(search).as_str().to_lowercase()
}

/// Whether a book is shown, by the text that is searched for, in lower case.
pub fn book_is_visible(book: &Book, needle: &str, author: &Option<String>, reader: &Option<String>) -> (r: bool)
    ensures
        r == is_visible(
            book@,
            needle@,
            crate::library::text_of(*author),
            crate::library::text_of(*reader),
        ),
{
    if needle.unicode_len() > 0 && !book_matches(book, needle) {
        return false;
    }
    match author {
        Some(a) => {
            if !text::same(book_group_name(book, false).as_str(), a.as_str()) {
                return false;
            }
        },
        None => {},
    }
    match reader {
        Some(r) => text::same(book_group_name(book, true).as_str(), r.as_str()),
        None => true,
    }
}

// ---- labels ----------------------------------------------------------------

/// A chapter in the list of chapters: its number from one, where it starts and
/// its title.
pub open spec fn chapter_text(index: nat, start: nat, title: Seq<char>) -> Seq<char> {
    left_padded(decimal(index + 1), ' ', 2) + ".  "@ + left_padded(hms_text(start / 1_000_000_000), ' ', 9) + "   "@
        + title
}

/// A chapter in the list of chapters.
pub fn chapter_label(ch: &Chapter) -> (r: String)
    requires
        ch.index < usize::MAX,
    ensures
        r@ == chapter_text(ch@.index as nat, ch@.start, ch@.title),
{
    let mut out = String::new();
    let number = text::decimal_string(ch.index as u64 + 1);
    text::push_left_padded(&mut out, number.as_str(), ' ', 2);
    out.append(".  ");
    let start = fmt_hms(ch.start.as_secs());
    text::push_left_padded(&mut out, start.as_str(), ' ', 9);
    out.append("   ");
    out.append(ch.title.as_str());
    assert(out@ =~= chapter_text(ch@.index as nat, ch@.start, ch@.title));
    out
}

/// A number and what is counted.
pub fn count_label(n: usize, what: &str) -> (r: String)
    ensures
        r@ == decimal(n as nat) + what@,
{
    let mut out = text::decimal_string(n as u64);
    out.append(what);
    out
}

/// The heading over each entry of the timeline: the month it was last listened
/// to, where the entry before it has another.
pub open spec fn headings(history: Seq<HistoryView>) -> Seq<Option<Seq<char>>> {
    Seq::new(
        history.len(),
        |i: int|
            if i > 0 && month_text(history[i - 1].last_played) == month_text(history[i].last_played) {
                None
            } else {
                Some(month_text(history[i].last_played))
            },
    )
}

/// The heading over each entry of the timeline.
pub fn timeline_headings(history: &Vec<HistoryEntry>) -> (r: Vec<Option<String>>)
    ensures
        r@.map_values(|o: Option<String>| crate::library::text_of(o)) == headings(views(history@)),
{
    let ghost all = views(history@);
    let mut out: Vec<Option<String>> = Vec::new();
    let mut last: Option<String> = None;
    let mut i: usize = 0;
    while i < history.len()
        invariant
            i <= history.len(),
            all == views(history@),
            out.len() == i,
            crate::library::text_of(last) == if i == 0 {
                None
            } else {
                Some(month_text(all[i - 1].last_played))
            },
            forall|k: int| 0 <= k < i ==> crate::library::text_of(#[trigger] out@[k]) == headings(all)[k],
        decreases history.len() - i,
    {
        assert(all[i as int] == history@[i as int]@);
        let month = fmt_month(history[i].last_played);
        let same = match &last {
            Some(l) => text::same(l.as_str(), month.as_str()),
            None => false,
        };
        if same {
            out.push(None);
        } else {
            out.push(Some(month.clone()));
        }
        last = Some(month);
        i = i + 1;
    }
    assert(out@.map_values(|o: Option<String>| crate::library::text_of(o)) =~= headings(all));
    out
}

/// The rating after star `n` was clicked: that many stars, or none where these
/// were given already.
pub fn pick_star(rating: Option<u8>, n: u8) -> (r: u8)
    ensures
        r == if rating == Some(n) { 0 } else { n },
{
    match rating {
        Some(r) => if r == n { 0 } else { n },
        None => n,
    }
}

} // verus!
