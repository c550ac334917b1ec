//! Authors and readers in the sidebar, what a search finds, and the headings of the
//! timeline, told by the books and entries themselves.

use vstd::prelude::*;

use crate::app::actions::shown_date;
use crate::browse::{
    chapter_text, counted, group_name, headings, is_visible, name_key, names_of, Category, LibView,
};
use crate::dates::month_text;
use crate::library::imported::{says_something, trimming_leaves_what_is_said};
use crate::library::planned::filter_mapped;
use crate::library::{BookView, HistoryView};
use crate::order::{codes, key_less, key_order, lex_less, lex_order, listing, listing_exists, text_order};
use crate::text::{decimal, left_padded, lowercase};
use crate::toast::{is_fresh, ToastView};
use crate::writing::{span_is_written_by_hours, trimmed_to_what_is_inside, two_digits};

verus! {

// ---- names -----------------------------------------------------------------

/// The author, or the reader, of a book.
pub open spec fn person_of(b: BookView, reader: bool) -> Option<Seq<char>> {
    if reader {
        b.reader
    } else {
        b.author
    }
}

/// A book whose author (or reader) is missing, or is but white space, is under
/// "Unknown".
pub proof fn nobody_is_unknown(b: BookView, reader: bool)
    requires
        person_of(b, reader) is None || !says_something(person_of(b, reader)->Some_0),
    ensures
        group_name(b, reader) == "Unknown"@,
{
    if person_of(b, reader) is Some {
        trimming_leaves_what_is_said(person_of(b, reader)->Some_0);
    }
}

/// Any other book is under the name of its author (or reader), from the first
/// character that is no white space to the last.
pub proof fn person_is_named(b: BookView, reader: bool, first: int, last: int)
    requires
        person_of(b, reader) is Some,
        ({
            let s = person_of(b, reader)->Some_0;
            &&& 0 <= first <= last < s.len()
            &&& !crate::text::is_white_space(s[first])
            &&& !crate::text::is_white_space(s[last])
            &&& forall|i: int| 0 <= i < first ==> crate::text::is_white_space(#[trigger] s[i])
            &&& forall|i: int| last < i < s.len() ==> crate::text::is_white_space(#[trigger] s[i])
        }),
    ensures
        group_name(b, reader) == person_of(b, reader)->Some_0.subrange(first, last + 1),
{
    trimmed_to_what_is_inside(person_of(b, reader)->Some_0, first, last);
}

/// Whether `a` comes before `b` in the order of code points: where they part, `a`
/// ends or has the lower character.
pub open spec fn spelled_before(a: Seq<char>, b: Seq<char>) -> bool {
    exists|k: int| spelled_apart(a, b, k)
}

/// Whether two texts are alike before the `k`th character, and there `a` ends or
/// has the lower character.
pub open spec fn spelled_apart(a: Seq<char>, b: Seq<char>, k: int) -> bool {
    &&& 0 <= k <= a.len()
    &&& k < b.len()
    &&& forall|m: int| 0 <= m < k ==> #[trigger] a[m] == b[m]
    &&& k < a.len() ==> (a[k] as int) < (b[k] as int)
}

proof fn same_code(a: char, b: char)
    ensures
        a as int == b as int <==> a == b,
{
}

/// Texts in the order of code points part where the first has the lower character
/// or ends.
pub proof fn texts_part(a: Seq<char>, b: Seq<char>)
    requires
        lex_less(codes(a), codes(b)),
    ensures
        spelled_before(a, b),
    decreases a.len(),
{
    assert(codes(a).len() == a.len() && codes(b).len() == b.len());
    if a.len() == 0 {
        assert(spelled_apart(a, b, 0));
    } else {
        assert(codes(a)[0] == a[0] as int && codes(b)[0] == b[0] as int);
        same_code(a[0], b[0]);
        if a[0] != b[0] {
            assert(spelled_apart(a, b, 0));
        } else {
            let x = a.drop_first();
            let y = b.drop_first();
            assert(codes(a).drop_first() =~= codes(x));
            assert(codes(b).drop_first() =~= codes(y));
            texts_part(x, y);
            let k = choose|k: int| spelled_apart(x, y, k);
            assert forall|m: int| 0 <= m < k + 1 implies #[trigger] a[m] == b[m] by {
                if m > 0 {
                    assert(x[m - 1] == y[m - 1]);
                }
            }
            if k + 1 < a.len() {
                assert(x[k] == a[k + 1] && y[k] == b[k + 1]);
            }
            assert(spelled_apart(a, b, k + 1));
        }
    }
}

/// How many books are under a name.
pub open spec fn books_under(books: Seq<BookView>, reader: bool, name: Seq<char>) -> nat {
    books.filter(|b: BookView| group_name(b, reader) == name).len()
}

/// Whether a name is one of those listed.
pub open spec fn is_listed_name(g: Seq<(Seq<char>, nat)>, name: Seq<char>) -> bool {
    exists|i: int| 0 <= i < g.len() && (#[trigger] g[i]).0 == name
}

/// In the sidebar every name stands once, in the order of code points, with the
/// number of books that are under it; and the name of every book is there.
pub proof fn names_are_counted(books: Seq<BookView>, reader: bool)
    ensures
        ({
            let g = counted(names_of(books, reader));
            &&& forall|i: int, j: int| 0 <= i < j < g.len() ==> spelled_before((#[trigger] g[i]).0, (#[trigger] g[j]).0)
            &&& forall|i: int|
                0 <= i < g.len() ==> (#[trigger] g[i]).1 == books_under(books, reader, g[i].0)
            &&& forall|k: int| 0 <= k < books.len() ==> is_listed_name(g, group_name(#[trigger] books[k], reader))
            &&& forall|i: int| 0 <= i < g.len() ==> (#[trigger] g[i]).1 > 0
        }),
{
    let names = names_of(books, reader);
    let key = |n: Seq<char>| name_key(n);
    assert forall|a: Seq<char>, b: Seq<char>| #[trigger] key(a) == #[trigger] key(b) implies a == b by {
        text_order(a, b);
        key_order(key(a), key(b));
    }
    listing_exists(names, key);
    let listed = listing(names, key);
    let g = counted(names);
    assert forall|i: int, j: int| 0 <= i < j < g.len() implies spelled_before((#[trigger] g[i]).0, (#[trigger] g[j]).0) by {
        assert(key_less(key(listed[i]), key(listed[j])));
        lex_order(key(listed[i]).second, key(listed[j]).second);
        texts_part(listed[i], listed[j]);
    }
    assert forall|i: int| 0 <= i < g.len() implies (#[trigger] g[i]).1 == books_under(books, reader, g[i].0) by {
        let name = g[i].0;
        let f = |b: BookView| group_name(b, reader);
        let q = |n: Seq<char>| n == listed[i];
        let c = |b: BookView| group_name(b, reader) == name;
        filter_mapped(books, f, q, c);
    }
    assert forall|k: int| 0 <= k < books.len() implies is_listed_name(g, group_name(#[trigger] books[k], reader)) by {
        assert(names[k] == group_name(books[k], reader));
        assert(listed.contains(names[k]));
        let i = choose|i: int| 0 <= i < listed.len() && listed[i] == names[k];
        assert(g[i].0 == names[k]);
    }
    assert forall|i: int| 0 <= i < g.len() implies (#[trigger] g[i]).1 > 0 by {
        let q = |n: Seq<char>| n == listed[i];
        crate::library::tables::filter_from(names, q);
        assert(names.contains(listed[i]) && q(listed[i]));
        assert(names.filter(q).contains(listed[i]));
    }
}

/// Layouts and categories are remembered under their own names in small letters,
/// and what is remembered under any other key stands for the icons and for all
/// books.
pub proof fn choices_are_remembered_by_name(s: Seq<char>)
    ensures
        LibView::Icons.key() == "icons"@ && LibView::Compact.key() == "compact"@ && LibView::Details.key() == "details"@,
        Category::Books.key() == "books"@ && Category::Authors.key() == "authors"@,
        Category::Readers.key() == "readers"@ && Category::History.key() == "history"@,
        s != "icons"@ && s != "compact"@ && s != "details"@ ==> LibView::of_key(s) == LibView::Icons,
        s != "books"@ && s != "authors"@ && s != "readers"@ && s != "history"@ ==> Category::of_key(s) == Category::Books,
{
}

/// A toast is up for four seconds: a clock that stands before it came up shows it
/// too.
pub proof fn toast_is_up_for_four_seconds(t: ToastView, now: nat)
    ensures
        is_fresh(t, now) <==> now < t.created + 4_000_000_000,
{
}

/// The day that is shown of an entry is that of its last listening, and nothing
/// where that is not known.
pub proof fn entry_shows_its_day(h: HistoryView)
    ensures
        h.last_played is None ==> shown_date(h).len() == 0,
        h.last_played matches Some(t) ==> shown_date(h) == crate::dates::listened_text(t),
{
}

// ---- searching -------------------------------------------------------------

/// Whether a text holds another from its `i`th character on.
pub open spec fn holds_at(hay: Seq<char>, needle: Seq<char>, i: int) -> bool {
    &&& 0 <= i
    &&& i + needle.len() <= hay.len()
    &&& forall|k: int| 0 <= k < needle.len() ==> hay[i + k] == #[trigger] needle[k]
}

/// Whether a text holds another somewhere.
pub open spec fn holds(hay: Seq<char>, needle: Seq<char>) -> bool {
    exists|i: int| holds_at(hay, needle, i)
}

proof fn occurring_is_holding(needle: Seq<char>, hay: Seq<char>)
    ensures
        crate::text::occurs_in(needle, hay) == holds(hay, needle),
{
    if crate::text::occurs_in(needle, hay) {
        let i = choose|i: int|
            0 <= i <= hay.len() - needle.len() && #[trigger] hay.subrange(i, i + needle.len()) == needle;
        assert forall|k: int| 0 <= k < needle.len() implies hay[i + k] == #[trigger] needle[k] by {
            assert(hay.subrange(i, i + needle.len())[k] == hay[i + k]);
        }
        assert(holds_at(hay, needle, i));
    }
    if holds(hay, needle) {
        let i = choose|i: int| holds_at(hay, needle, i);
        assert(hay.subrange(i, i + needle.len()) =~= needle);
    }
}

/// A book is shown if its title, its author or its reader, in lower case, holds
/// what is searched for, should anything be, and if it is under the author and
/// under the reader that are chosen, should they be.
pub proof fn search_finds(b: BookView, needle: Seq<char>, author: Option<Seq<char>>, reader: Option<Seq<char>>)
    ensures
        ({
            let found = holds(lowercase(b.title), needle) || (b.author is Some && holds(
                lowercase(b.author->Some_0),
                needle,
            )) || (b.reader is Some && holds(lowercase(b.reader->Some_0), needle));
            let by = author is Some ==> group_name(b, false) == author->Some_0;
            let read = reader is Some ==> group_name(b, true) == reader->Some_0;
            is_visible(b, needle, author, reader) <==> (needle.len() == 0 || found) && by && read
        }),
{
    occurring_is_holding(needle, lowercase(b.title));
    if b.author is Some {
        occurring_is_holding(needle, lowercase(b.author->Some_0));
    }
    if b.reader is Some {
        occurring_is_holding(needle, lowercase(b.reader->Some_0));
    }
}

/// Searching for a part of what was searched for shows no fewer books.
pub proof fn shorter_search_finds_more(
    b: BookView,
    needle: Seq<char>,
    from: int,
    to: int,
    author: Option<Seq<char>>,
    reader: Option<Seq<char>>,
)
    requires
        0 <= from <= to <= needle.len(),
        is_visible(b, needle, author, reader),
    ensures
        is_visible(b, needle.subrange(from, to), author, reader),
{
    let part = needle.subrange(from, to);
    search_finds(b, needle, author, reader);
    search_finds(b, part, author, reader);
    if part.len() > 0 {
        part_is_held(lowercase(b.title), needle, from, to);
        if b.author is Some {
            part_is_held(lowercase(b.author->Some_0), needle, from, to);
        }
        if b.reader is Some {
            part_is_held(lowercase(b.reader->Some_0), needle, from, to);
        }
    }
}

proof fn part_is_held(hay: Seq<char>, needle: Seq<char>, from: int, to: int)
    requires
        0 <= from <= to <= needle.len(),
    ensures
        holds(hay, needle) ==> holds(hay, needle.subrange(from, to)),
{
    if holds(hay, needle) {
        let i = choose|i: int| holds_at(hay, needle, i);
        let part = needle.subrange(from, to);
        assert forall|k: int| 0 <= k < part.len() implies hay[i + from + k] == #[trigger] part[k] by {
            assert(hay[i + (from + k)] == needle[from + k]);
        }
        assert(holds_at(hay, part, i + from));
    }
}

// ---- labels ----------------------------------------------------------------

/// Every entry of the timeline stands under the heading of its month: the first
/// entry has one, and each later one has its own where the month is another than
/// that of the entry before, and none where it is the same.
pub proof fn months_head_the_timeline(history: Seq<HistoryView>, i: int)
    requires
        0 <= i < history.len(),
    ensures
        headings(history).len() == history.len(),
        headings(history)[0] == Some(month_text(history[0].last_played)),
        headings(history)[i] is Some ==> headings(history)[i]->Some_0 == month_text(history[i].last_played),
        i > 0 ==> (headings(history)[i] is None <==> month_text(history[i - 1].last_played) == month_text(
            history[i].last_played,
        )),
{
}

/// A chapter is listed by its number from one, in two characters at least, where it
/// begins in hours, minutes and seconds, in nine at least, and its title.
pub proof fn chapter_is_listed(index: nat, start: nat, title: Seq<char>, h: nat, m: nat, s: nat)
    requires
        m < 60,
        s < 60,
        (h * 3600 + m * 60 + s) * 1_000_000_000 <= start < (h * 3600 + m * 60 + s + 1) * 1_000_000_000,
    ensures
        chapter_text(index, start, title) == left_padded(decimal(index + 1), ' ', 2) + ".  "@ + left_padded(
            decimal(h) + seq![':'] + two_digits(m) + seq![':'] + two_digits(s),
            ' ',
            9,
        ) + "   "@ + title,
{
    let t = h * 3600 + m * 60 + s;
    vstd::arithmetic::div_mod::lemma_fundamental_div_mod_converse(
        start as int,
        1_000_000_000,
        t as int,
        start - t * 1_000_000_000,
    );
    span_is_written_by_hours(h, m, s);
}

} // verus!
