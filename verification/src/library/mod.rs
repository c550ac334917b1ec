//! Library domain types: what is known of a book, its parts and its history.

pub mod cover;
pub mod db;
pub mod imported;
pub mod journal;
pub mod laws;
pub mod listed;
pub mod meta;
pub mod picture;
pub mod planned;
pub mod rescan;
pub mod rows;
pub mod scan;
pub mod tables;

use vstd::prelude::*;

use crate::time::Duration;

verus! {

/// What the items of a list hold.
pub open spec fn views<T: View>(s: Seq<T>) -> Seq<T::V> {
    s.map_values(|x: T| x@)
}

/// Keep the rows that `wanted` accepts.
pub(crate) fn keep<T: View, F: Fn(&T) -> bool>(rows: &mut Vec<T>, wanted: F, Ghost(p): Ghost<spec_fn(T::V) -> bool>)
    requires
        forall|x: &T| wanted.requires((x,)),
        forall|x: &T, r: bool| wanted.ensures((x,), r) ==> r == p(x@),
    ensures
        views(final(rows)@) == views(old(rows)@).filter(p),
{
    let ghost all = views(rows@);
    let mut i: usize = 0;
    let ghost mut n: int = 0;
    proof {
        reveal(Seq::filter);
        assert(all.take(0).filter(p) + all.skip(0) =~= all);
    }
    while i < rows.len()
        invariant
            forall|x: &T| wanted.requires((x,)),
            forall|x: &T, r: bool| wanted.ensures((x,), r) ==> r == p(x@),
            0 <= n <= all.len(),
            i == all.take(n).filter(p).len(),
            views(rows@) == all.take(n).filter(p) + all.skip(n),
        decreases rows.len() - i,
    {
        proof {
            assert(views(rows@).len() == rows.len());
            tables::filter_step(all, n, p);
            assert(views(rows@)[i as int] == all.skip(n)[0]);
            assert(rows@[i as int]@ == all[n]);
        }
        let ghost before = views(rows@);
        if wanted(&rows[i]) {
            i = i + 1;
            assert(all.take(n).filter(p) + all.skip(n) =~= all.take(n + 1).filter(p) + all.skip(n + 1));
        } else {
            rows.remove(i);
            assert(views(rows@) =~= before.remove(i as int));
            assert(before.remove(i as int) =~= all.take(n + 1).filter(p) + all.skip(n + 1));
        }
        proof {
            n = n + 1;
        }
    }
    proof {
        assert(views(rows@).len() == rows.len());
        assert(n == all.len());
        assert(all.take(n) =~= all);
        assert(all.take(n).filter(p) + all.skip(n) =~= all.filter(p));
    }
}

/// What an item that may be missing holds.
pub open spec fn view_of<T: View>(o: Option<T>) -> Option<T::V> {
    match o {
        Some(x) => Some(x@),
        None => None,
    }
}

/// A text that may be missing, as characters.
pub open spec fn text_of(o: Option<String>) -> Option<Seq<char>> {
    match o {
        Some(s) => Some(s@),
        None => None,
    }
}

/// A copy of a text that may be missing.
pub fn copy_text(o: &Option<String>) -> (r: Option<String>)
    ensures
        text_of(r) == text_of(*o),
{
    match o {
        Some(s) => Some(s.clone()),
        None => None,
    }
}

/// A single chapter within a book.
#[derive(Debug)]
pub struct Chapter {
    /// Zero-based position in the book.
    pub index: usize,
    pub title: String,
    /// Offset from the start of the book where this chapter begins.
    pub start: Duration,
}

/// What a [`Chapter`] holds.
#[verifier::ext_equal]
pub struct ChapterView {
    pub index: usize,
    pub title: Seq<char>,
    pub start: nat,
}

impl View for Chapter {
    type V = ChapterView;

    open spec fn view(&self) -> ChapterView {
        ChapterView { index: self.index, title: self.title@, start: self.start@ }
    }
}

impl Clone for Chapter {
    fn clone(&self) -> (r: Chapter)
        ensures
            r@ == self@,
    {
        Chapter { index: self.index, title: self.title.clone(), start: self.start }
    }
}

/// A copy of a list of chapters.
pub fn copy_chapters(v: &Vec<Chapter>) -> (r: Vec<Chapter>)
    ensures
        views(r@) == views(v@),
{
    let mut out: Vec<Chapter> = Vec::new();
    let mut i: usize = 0;
    while i < v.len()
        invariant
            i <= v.len(),
            out.len() == i,
            forall|k: int| 0 <= k < i ==> #[trigger] out@[k]@ == v@[k]@,
        decreases v.len() - i,
    {
        out.push(v[i].clone());
        i = i + 1;
    }
    assert(views(out@) =~= views(v@));
    out
}

/// Cover artwork extracted from a file.
#[derive(Debug)]
pub struct Cover {
    pub data: Vec<u8>,
    /// `true` for PNG, `false` for JPEG (the two formats iTunes-style art uses).
    pub is_png: bool,
}

/// What a [`Cover`] holds.
#[verifier::ext_equal]
pub struct CoverView {
    pub data: Seq<u8>,
    pub is_png: bool,
}

impl View for Cover {
    type V = CoverView;

    open spec fn view(&self) -> CoverView {
        CoverView { data: self.data@, is_png: self.is_png }
    }
}

impl Clone for Cover {
    fn clone(&self) -> (r: Cover)
        ensures
            r@ == self@,
    {
        let data = self.data.clone();
        assert(data@ =~= self.data@);
        Cover { data, is_png: self.is_png }
    }
}

/// What a cover that may be missing holds.
pub open spec fn cover_of(o: Option<Cover>) -> Option<CoverView> {
    match o {
        Some(c) => Some(c@),
        None => None,
    }
}

/// A copy of a cover that may be missing.
pub fn copy_cover(o: &Option<Cover>) -> (r: Option<Cover>)
    ensures
        cover_of(r) == cover_of(*o),
{
    match o {
        Some(c) => Some(c.clone()),
        None => None,
    }
}

/// A length of time that may be unknown, in nanoseconds.
pub open spec fn span_of(o: Option<Duration>) -> Option<nat> {
    match o {
        Some(d) => Some(d@),
        None => None,
    }
}

/// Everything we know about a book from its file, independent of playback.
#[derive(Debug)]
pub struct BookMeta {
    pub title: Option<String>,
    pub author: Option<String>,
    /// The narrator/reader, taken from the composer tag (audiobooks put it there).
    pub reader: Option<String>,
    pub album: Option<String>,
    /// The name of the file that was read, where there is one.
    pub file_name: Option<String>,
    pub duration: Option<Duration>,
    pub chapters: Vec<Chapter>,
    pub cover: Option<Cover>,
}

/// What a [`BookMeta`] holds.
#[verifier::ext_equal]
pub struct MetaView {
    pub title: Option<Seq<char>>,
    pub author: Option<Seq<char>>,
    pub reader: Option<Seq<char>>,
    pub album: Option<Seq<char>>,
    pub file_name: Option<Seq<char>>,
    pub duration: Option<nat>,
    pub chapters: Seq<ChapterView>,
    pub cover: Option<CoverView>,
}

impl View for BookMeta {
    type V = MetaView;

    open spec fn view(&self) -> MetaView {
        MetaView {
            title: text_of(self.title),
            author: text_of(self.author),
            reader: text_of(self.reader),
            album: text_of(self.album),
            file_name: text_of(self.file_name),
            duration: span_of(self.duration),
            chapters: views(self.chapters@),
            cover: cover_of(self.cover),
        }
    }
}

impl Clone for BookMeta {
    fn clone(&self) -> (r: BookMeta)
        ensures
            r@ == self@,
    {
        BookMeta {
            title: copy_text(&self.title),
            author: copy_text(&self.author),
            reader: copy_text(&self.reader),
            album: copy_text(&self.album),
            file_name: copy_text(&self.file_name),
            duration: self.duration,
            chapters: copy_chapters(&self.chapters),
            cover: copy_cover(&self.cover),
        }
    }
}

impl Default for BookMeta {
    fn default() -> (r: BookMeta)
        ensures
            r@ == (MetaView {
                title: None,
                author: None,
                reader: None,
                album: None,
                file_name: None,
                duration: None,
                chapters: Seq::empty(),
                cover: None,
            }),
    {
        let r = BookMeta {
            title: None,
            author: None,
            reader: None,
            album: None,
            file_name: None,
            duration: None,
            chapters: Vec::new(),
            cover: None,
        };
        assert(views(r.chapters@) =~= Seq::empty());
        r
    }
}

impl MetaView {
    /// The title to show: the title, else the album, else the name of the file,
    /// and a stand-in where there is none of them.
    pub open spec fn display_title(self) -> Seq<char> {
        match (self.title, self.album, self.file_name) {
            (Some(t), _, _) => t,
            (None, Some(a), _) => a,
            (None, None, Some(f)) => f,
            (None, None, None) => "Unknown book"@,
        }
    }

    /// The duration, or none of it where it is unknown.
    pub open spec fn length(self) -> nat {
        match self.duration {
            Some(d) => d,
            None => 0,
        }
    }
}

impl BookMeta {
    /// A human-friendly display title, falling back through album then filename.
    pub fn display_title(&self) -> (r: &str)
        ensures
            r@ == self@.display_title(),
    {
        match &self.title {
            Some(t) => t.as_str(),
            None => match &self.album {
                Some(a) => a.as_str(),
                None => match &self.file_name {
                    Some(f) => f.as_str(),
                    None => "Unknown book",
                },
            },
        }
    }

    /// The duration, or none of it where it is unknown.
    pub fn length(&self) -> (r: Duration)
        ensures
            r@ == self@.length(),
    {
        match self.duration {
            Some(d) => d,
            None => Duration::zero(),
        }
    }
}

/// A book as stored in the library database: metadata plus persistent state
/// (resume position, when it was added/last played).
#[derive(Debug)]
pub struct Book {
    pub id: i64,
    pub path: String,
    pub title: String,
    pub author: Option<String>,
    /// The narrator/reader (from the composer tag), if known.
    pub reader: Option<String>,
    pub duration: Duration,
    pub chapter_count: usize,
    pub cover: Option<Cover>,
    /// Resume position from the start of the book.
    pub position: Duration,
    pub finished: bool,
    /// Remembered per-book playback speed, as the bits of a 32-bit float.
    pub speed_bits: u32,
    /// True when this book is a folder of separate audio files (one per
    /// chapter) rather than a single file. `path` is then the folder.
    pub is_multi: bool,
    pub added_at: i64,
    pub last_played: Option<i64>,
}

/// What a [`Book`] holds.
#[verifier::ext_equal]
pub struct BookView {
    pub id: i64,
    pub path: Seq<char>,
    pub title: Seq<char>,
    pub author: Option<Seq<char>>,
    pub reader: Option<Seq<char>>,
    pub duration: nat,
    pub chapter_count: usize,
    pub cover: Option<CoverView>,
    pub position: nat,
    pub finished: bool,
    pub speed_bits: u32,
    pub is_multi: bool,
    pub added_at: i64,
    pub last_played: Option<i64>,
}

impl View for Book {
    type V = BookView;

    open spec fn view(&self) -> BookView {
        BookView {
            id: self.id,
            path: self.path@,
            title: self.title@,
            author: text_of(self.author),
            reader: text_of(self.reader),
            duration: self.duration@,
            chapter_count: self.chapter_count,
            cover: cover_of(self.cover),
            position: self.position@,
            finished: self.finished,
            speed_bits: self.speed_bits,
            is_multi: self.is_multi,
            added_at: self.added_at,
            last_played: self.last_played,
        }
    }
}

impl Clone for Book {
    fn clone(&self) -> (r: Book)
        ensures
            r@ == self@,
    {
        Book {
            id: self.id,
            path: self.path.clone(),
            title: self.title.clone(),
            author: copy_text(&self.author),
            reader: copy_text(&self.reader),
            duration: self.duration,
            chapter_count: self.chapter_count,
            cover: copy_cover(&self.cover),
            position: self.position,
            finished: self.finished,
            speed_bits: self.speed_bits,
            is_multi: self.is_multi,
            added_at: self.added_at,
            last_played: self.last_played,
        }
    }
}

/// One member file of a multi-file book (played back to back).
#[derive(Debug)]
pub struct Track {
    pub idx: usize,
    pub path: String,
    /// Offset of this track from the start of the book.
    pub start: Duration,
    pub duration: Duration,
    pub title: String,
}

/// What a [`Track`] holds.
#[verifier::ext_equal]
pub struct TrackView {
    pub idx: usize,
    pub path: Seq<char>,
    pub start: nat,
    pub duration: nat,
    pub title: Seq<char>,
}

impl View for Track {
    type V = TrackView;

    open spec fn view(&self) -> TrackView {
        TrackView {
            idx: self.idx,
            path: self.path@,
            start: self.start@,
            duration: self.duration@,
            title: self.title@,
        }
    }
}

impl Clone for Track {
    fn clone(&self) -> (r: Track)
        ensures
            r@ == self@,
    {
        Track {
            idx: self.idx,
            path: self.path.clone(),
            start: self.start,
            duration: self.duration,
            title: self.title.clone(),
        }
    }
}

/// A saved position within a book.
#[derive(Debug)]
pub struct Bookmark {
    pub id: i64,
    pub book_id: i64,
    pub position: Duration,
    pub label: String,
}

/// What a [`Bookmark`] holds.
#[verifier::ext_equal]
pub struct BookmarkView {
    pub id: i64,
    pub book_id: i64,
    pub position: nat,
    pub label: Seq<char>,
}

impl View for Bookmark {
    type V = BookmarkView;

    open spec fn view(&self) -> BookmarkView {
        BookmarkView {
            id: self.id,
            book_id: self.book_id,
            position: self.position@,
            label: self.label@,
        }
    }
}

impl Clone for Bookmark {
    fn clone(&self) -> (r: Bookmark)
        ensures
            r@ == self@,
    {
        Bookmark {
            id: self.id,
            book_id: self.book_id,
            position: self.position,
            label: self.label.clone(),
        }
    }
}

/// A persistent "My History" entry: a rating + note + saved cover for a book,
/// kept independently of the library so it survives the files being removed.
#[derive(Debug)]
pub struct HistoryEntry {
    pub id: i64,
    /// Stable key linking back to a library book (its path), if it still exists.
    pub book_key: String,
    /// Whether the entry has a key. One that was stored without belongs to no
    /// book, and its key reads as empty.
    pub keyed: bool,
    pub title: String,
    pub author: Option<String>,
    pub reader: Option<String>,
    /// A copy of the cover artwork, saved so it outlives the source files.
    pub cover: Option<Cover>,
    /// User rating, 0..=5 stars (None if never rated).
    pub rating: Option<u8>,
    pub note: String,
    /// When the book was first played (Unix epoch seconds).
    pub first_played: Option<i64>,
    /// When the book was last played (Unix epoch seconds), the "date listened".
    pub last_played: Option<i64>,
    pub finished: bool,
    /// True when the user added this entry by hand rather than by listening.
    pub added_manually: bool,
}

/// What a [`HistoryEntry`] holds.
#[verifier::ext_equal]
pub struct HistoryView {
    pub id: i64,
    pub book_key: Seq<char>,
    pub keyed: bool,
    pub title: Seq<char>,
    pub author: Option<Seq<char>>,
    pub reader: Option<Seq<char>>,
    pub cover: Option<CoverView>,
    pub rating: Option<u8>,
    pub note: Seq<char>,
    pub first_played: Option<i64>,
    pub last_played: Option<i64>,
    pub finished: bool,
    pub added_manually: bool,
}

impl HistoryView {
    /// Whether this is the entry of the book with this key.
    pub open spec fn is_of(self, key: Seq<char>) -> bool {
        self.keyed && self.book_key == key
    }
}

impl View for HistoryEntry {
    type V = HistoryView;

    open spec fn view(&self) -> HistoryView {
        HistoryView {
            id: self.id,
            book_key: self.book_key@,
            keyed: self.keyed,
            title: self.title@,
            author: text_of(self.author),
            reader: text_of(self.reader),
            cover: cover_of(self.cover),
            rating: self.rating,
            note: self.note@,
            first_played: self.first_played,
            last_played: self.last_played,
            finished: self.finished,
            added_manually: self.added_manually,
        }
    }
}

impl Clone for HistoryEntry {
    fn clone(&self) -> (r: HistoryEntry)
        ensures
            r@ == self@,
    {
        HistoryEntry {
            id: self.id,
            book_key: self.book_key.clone(),
            keyed: self.keyed,
            title: self.title.clone(),
            author: copy_text(&self.author),
            reader: copy_text(&self.reader),
            cover: copy_cover(&self.cover),
            rating: self.rating,
            note: self.note.clone(),
            first_played: self.first_played,
            last_played: self.last_played,
            finished: self.finished,
            added_manually: self.added_manually,
        }
    }
}

} // verus!
