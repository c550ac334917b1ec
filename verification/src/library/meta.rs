//! What the tags of an audiobook file make known of the book. MP4-family files
//! have iTunes-style tags and two representations of chapters, a chapter track
//! and a chapter list; other formats have tags, cover and duration alone.

use vstd::prelude::*;

use crate::library::{
    copy_text, text_of, view_of, views, BookMeta, Chapter, ChapterView, Cover, CoverView, MetaView,
};
use crate::paths;
use crate::paths::{extension_of, name_of, path_leq, stem_of};
use crate::text;
use crate::text::{ascii_lowered, trimmed};
use crate::time::Duration;

verus! {

/// Who reads the tags of a file.
#[derive(Debug, Clone, Copy, PartialEq, Eq, Structural)]
pub enum TagReader {
    /// The reader of MP4-family files, with chapter support.
    Mp4,
    /// The reader of all other formats.
    General,
}

/// Whether an extension, in lower case, is of the MP4 family.
pub open spec fn is_mp4_ext(ext: Seq<char>) -> bool {
    ext == "m4b"@ || ext == "m4a"@ || ext == "mp4"@
}

/// Who reads the tags of the file at a path: its extension decides.
pub open spec fn reader_of(path: Seq<char>) -> TagReader {
    match extension_of(path) {
        Some(e) => if is_mp4_ext(ascii_lowered(e)) {
            TagReader::Mp4
        } else {
            TagReader::General
        },
        None => TagReader::General,
    }
}

/// Who reads the tags of the file at a path.
pub fn reader_for(path: &str) -> (r: TagReader)
    ensures
        r == reader_of(path@),
{
    match paths::ext_of(path) {
        Some(e) => {
            if text::same(e.as_str(), "m4b") || text::same(e.as_str(), "m4a") || text::same(e.as_str(), "mp4") {
                TagReader::Mp4
            } else {
                TagReader::General
            }
        },
        None => TagReader::General,
    }
}

// ---- what the readers find -------------------------------------------------

/// The format of a picture.
#[derive(Debug, Clone, Copy, PartialEq, Eq, Structural)]
pub enum PictureFormat {
    Png,
    Other,
}

/// A picture in a file's tags.
#[derive(Debug)]
pub struct Picture {
    pub data: Vec<u8>,
    pub format: PictureFormat,
}

impl View for Picture {
    type V = CoverView;

    /// The picture as a cover.
    open spec fn view(&self) -> CoverView {
        CoverView { data: self.data@, is_png: self.format == PictureFormat::Png }
    }
}

/// The cover that a picture makes.
pub fn picture_cover(p: &Picture) -> (r: Cover)
    ensures
        r@ == p@,
{
    let data = p.data.clone();
    assert(data@ =~= p.data@);
    Cover { data, is_png: p.format == PictureFormat::Png }
}

fn cover_from(p: &Option<Picture>) -> (r: Option<Cover>)
    ensures
        crate::library::cover_of(r) == view_of(*p),
{
    match p {
        Some(p) => Some(picture_cover(p)),
        None => None,
    }
}

/// A chapter as an MP4 file has it.
#[derive(Debug)]
pub struct ChapterMark {
    pub title: String,
    pub start: Duration,
}

/// What a [`ChapterMark`] holds.
#[verifier::ext_equal]
pub struct ChapterMarkView {
    pub title: Seq<char>,
    pub start: nat,
}

impl View for ChapterMark {
    type V = ChapterMarkView;

    open spec fn view(&self) -> ChapterMarkView {
        ChapterMarkView { title: self.title@, start: self.start@ }
    }
}

/// The texts and the first picture of a file's tags.
#[derive(Debug)]
pub struct Tags {
    pub title: Option<String>,
    pub artist: Option<String>,
    pub composer: Option<String>,
    pub album: Option<String>,
    pub picture: Option<Picture>,
}

/// What [`Tags`] hold.
#[verifier::ext_equal]
pub struct TagsView {
    pub title: Option<Seq<char>>,
    pub artist: Option<Seq<char>>,
    pub composer: Option<Seq<char>>,
    pub album: Option<Seq<char>>,
    pub picture: Option<CoverView>,
}

impl View for Tags {
    type V = TagsView;

    open spec fn view(&self) -> TagsView {
        TagsView {
            title: text_of(self.title),
            artist: text_of(self.artist),
            composer: text_of(self.composer),
            album: text_of(self.album),
            picture: view_of(self.picture),
        }
    }
}

/// What the reader of MP4-family files finds.
#[derive(Debug)]
pub struct Mp4Tags {
    pub tags: Tags,
    pub duration: Duration,
    pub chapter_track: Vec<ChapterMark>,
    pub chapter_list: Vec<ChapterMark>,
}

/// What the reader of all other formats finds: the tag that is usual for the
/// format, and the first tag of any kind.
#[derive(Debug)]
pub struct GeneralTags {
    pub primary: Option<Tags>,
    pub first: Option<Tags>,
    pub duration: Duration,
}

/// What was found in a file.
#[derive(Debug)]
pub enum FileTags {
    Mp4(Mp4Tags),
    General(GeneralTags),
}

// ---- what the findings mean ------------------------------------------------

/// Chapters, numbered in their order.
pub open spec fn numbered(marks: Seq<ChapterMarkView>) -> Seq<ChapterView> {
    Seq::new(marks.len(), |i: int| ChapterView { index: i as usize, title: marks[i].title, start: marks[i].start })
}

impl Mp4Tags {
    /// The chapters that count: those of the chapter track, which have real
    /// timestamps, or those of the chapter list where there is no track.
    pub open spec fn marks(&self) -> Seq<ChapterMarkView> {
        if self.chapter_track@.len() == 0 {
            views(self.chapter_list@)
        } else {
            views(self.chapter_track@)
        }
    }

    /// The book that the tags of the file at this path describe.
    pub open spec fn meta(&self, path: Seq<char>) -> MetaView {
        MetaView {
            title: self.tags@.title,
            author: self.tags@.artist,
            reader: self.tags@.composer,
            album: self.tags@.album,
            file_name: name_of(path),
            duration: Some(self.duration@),
            chapters: numbered(self.marks()),
            cover: self.tags@.picture,
        }
    }
}

impl GeneralTags {
    /// The tag that counts: the usual one, or else the first.
    pub open spec fn tag(&self) -> Option<TagsView> {
        if self.primary is Some {
            view_of(self.primary)
        } else {
            view_of(self.first)
        }
    }

    /// The book that the tags of the file at this path describe.
    pub open spec fn meta(&self, path: Seq<char>) -> MetaView {
        let tag = self.tag();
        MetaView {
            title: if tag is Some { tag->Some_0.title } else { None },
            author: if tag is Some { tag->Some_0.artist } else { None },
            reader: if tag is Some { tag->Some_0.composer } else { None },
            album: if tag is Some { tag->Some_0.album } else { None },
            file_name: name_of(path),
            duration: Some(self.duration@),
            chapters: Seq::empty(),
            cover: if tag is Some { tag->Some_0.picture } else { None },
        }
    }
}

fn number(marks: &Vec<ChapterMark>) -> (r: Vec<Chapter>)
    ensures
        views(r@) == numbered(views(marks@)),
{
    let mut out: Vec<Chapter> = Vec::new();
    let mut i: usize = 0;
    while i < marks.len()
        invariant
            i <= marks.len(),
            out.len() == i,
            forall|k: int|
                0 <= k < i ==> (#[trigger] out@[k])@ == (ChapterView {
                    index: k as usize,
                    title: marks@[k].title@,
                    start: marks@[k].start@,
                }),
        decreases marks.len() - i,
    {
        out.push(Chapter { index: i, title: marks[i].title.clone(), start: marks[i].start });
        i = i + 1;
    }
    assert(views(out@) =~= numbered(views(marks@)));
    out
}

/// The book that the tags of the MP4-family file at this path describe.
pub fn read_m4b(path: &str, found: &Mp4Tags) -> (r: BookMeta)
    ensures
        r@ == found.meta(path@),
{
    let chapters = if found.chapter_track.len() == 0 {
        number(&found.chapter_list)
    } else {
        number(&found.chapter_track)
    };
    BookMeta {
        title: copy_text(&found.tags.title),
        author: copy_text(&found.tags.artist),
        reader: copy_text(&found.tags.composer),
        album: copy_text(&found.tags.album),
        file_name: paths::file_name(path),
        duration: Some(found.duration),
        chapters,
        cover: cover_from(&found.tags.picture),
    }
}

fn book_of_tag(path: &str, tag: &Option<Tags>, duration: Duration) -> (r: BookMeta)
    ensures
        r@ == (MetaView {
            title: if *tag is Some { (*tag)->Some_0@.title } else { None },
            author: if *tag is Some { (*tag)->Some_0@.artist } else { None },
            reader: if *tag is Some { (*tag)->Some_0@.composer } else { None },
            album: if *tag is Some { (*tag)->Some_0@.album } else { None },
            file_name: name_of(path@),
            duration: Some(duration@),
            chapters: Seq::empty(),
            cover: if *tag is Some { (*tag)->Some_0@.picture } else { None },
        }),
{
    let chapters: Vec<Chapter> = Vec::new();
    assert(views(chapters@) =~= Seq::empty());
    let file_name = paths::file_name(path);
    match tag {
        Some(t) => BookMeta {
            title: copy_text(&t.title),
            author: copy_text(&t.artist),
            reader: copy_text(&t.composer),
            album: copy_text(&t.album),
            file_name,
            duration: Some(duration),
            chapters,
            cover: cover_from(&t.picture),
        },
        None => BookMeta {
            title: None,
            author: None,
            reader: None,
            album: None,
            file_name,
            duration: Some(duration),
            chapters,
            cover: None,
        },
    }
}

/// The book that the tags of the file at this path, of another format, describe.
/// These carry no chapter markers, so the book plays as a single span.
pub fn read_general(path: &str, found: &GeneralTags) -> (r: BookMeta)
    ensures
        r@ == found.meta(path@),
{
    if found.primary.is_some() {
        book_of_tag(path, &found.primary, found.duration)
    } else {
        book_of_tag(path, &found.first, found.duration)
    }
}

impl FileTags {
    /// The book that the tags of the file at this path describe.
    pub open spec fn meta(&self, path: Seq<char>) -> MetaView {
        match self {
            FileTags::Mp4(t) => t.meta(path),
            FileTags::General(t) => t.meta(path),
        }
    }
}

/// The book that the tags of the supported file at this path describe.
pub fn read(path: &str, found: &FileTags) -> (r: BookMeta)
    ensures
        r@ == found.meta(path@),
{
    match found {
        FileTags::Mp4(t) => read_m4b(path, t),
        FileTags::General(t) => read_general(path, t),
    }
}

// ---- member files ----------------------------------------------------------

/// Whether a text holds nothing but white space.
pub fn is_blank(s: &str) -> (r: bool)
    ensures
        r == (trimmed(s@).len() == 0),
{
    let cs = text::chars_of(s);
    let n = cs.len();
    let (lo, hi) = text::trim_bounds(&cs, 0, n);
    assert(cs@.subrange(0, n as int) =~= s@);
    lo == hi
}

/// The title of a member file: the one in its tags, unless that is blank, else
/// its name without the extension.
pub open spec fn track_title(path: Seq<char>, tag: Option<TagsView>) -> Seq<char> {
    let tagged = if tag is Some { tag->Some_0.title } else { None };
    if tagged is Some && trimmed(tagged->Some_0).len() > 0 {
        tagged->Some_0
    } else {
        match stem_of(path) {
            Some(s) => s,
            None => "Track"@,
        }
    }
}

fn title_from(path: &str, tag: &Option<Tags>) -> (r: String)
    ensures
        r@ == track_title(path@, view_of(*tag)),
{
    match tag {
        Some(t) => match &t.title {
            Some(title) => {
                if !is_blank(title.as_str()) {
                    return title.clone();
                }
            },
            None => {},
        },
        None => {},
    }
    match paths::file_stem(path) {
        Some(s) => s,
        None => "Track".to_owned(),
    }
}

/// Title and duration for one member file of a multi-file book. Falls back to
/// the filename when the file has no title tag.
pub fn track_info(path: &str, found: &GeneralTags) -> (r: (String, Duration))
    ensures
        r.0@ == track_title(path@, found.tag()),
        r.1@ == found.duration@,
{
    let title = if found.primary.is_some() {
        title_from(path, &found.primary)
    } else {
        title_from(path, &found.first)
    };
    (title, found.duration)
}

// ---- the cover of a folder -------------------------------------------------

/// Whether the file at a path is an image.
pub open spec fn is_image(path: Seq<char>) -> bool {
    match extension_of(path) {
        Some(e) => {
            let e = ascii_lowered(e);
            e == "jpg"@ || e == "jpeg"@ || e == "png"@
        },
        None => false,
    }
}

/// Whether the file at a path is named as the cover of a folder.
pub open spec fn is_named_cover(path: Seq<char>) -> bool {
    match stem_of(path) {
        Some(s) => {
            let s = ascii_lowered(s);
            s == "cover"@ || s == "folder"@
        },
        None => false,
    }
}

/// Whether `path` is to be taken for the cover rather than `other`: one that is
/// named as such before one that is not, and else the first in the order of
/// paths.
pub open spec fn better_cover(path: Seq<char>, other: Seq<char>) -> bool {
    if is_named_cover(path) == is_named_cover(other) {
        path_leq(path, other)
    } else {
        is_named_cover(path)
    }
}

/// Whether `path` is the one among the files of a folder that holds its cover.
pub open spec fn is_folder_cover(files: Seq<Seq<char>>, path: Seq<char>) -> bool {
    &&& files.contains(path)
    &&& is_image(path)
    &&& forall|i: int| 0 <= i < files.len() && is_image(#[trigger] files[i]) ==> better_cover(path, files[i])
}

fn image(path: &str) -> (r: bool)
    ensures
        r == is_image(path@),
{
    match paths::ext_of(path) {
        Some(e) => text::same(e.as_str(), "jpg") || text::same(e.as_str(), "jpeg") || text::same(e.as_str(), "png"),
        None => false,
    }
}

fn named_cover(path: &str) -> (r: bool)
    ensures
        r == is_named_cover(path@),
{
    match paths::file_stem(path) {
        Some(s) => {
            let cs = text::chars_of(s.as_str());
            let n = cs.len();
            let low = text::lower_string_of(&cs, 0, n);
            assert(cs@.subrange(0, n as int) =~= s@);
            text::same(low.as_str(), "cover") || text::same(low.as_str(), "folder")
        },
        None => false,
    }
}

fn takes_over(path: &str, other: &str) -> (r: bool)
    ensures
        r == better_cover(path@, other@),
{
    let a = named_cover(path);
    let b = named_cover(other);
    if a == b {
        paths::path_at_most(path, other)
    } else {
        a
    }
}

proof fn better_carries_over(a: Seq<char>, b: Seq<char>, c: Seq<char>)
    requires
        better_cover(a, b),
        better_cover(b, c),
    ensures
        better_cover(a, c),
{
    paths::path_order_is_total();
    let r = paths::path_order();
    if is_named_cover(a) == is_named_cover(c) {
        assert(is_named_cover(b) == is_named_cover(a));
        assert(r(a, b) && r(b, c));
        assert(r(a, c));
    }
}

proof fn better_one_way(a: Seq<char>, b: Seq<char>)
    ensures
        better_cover(a, b) || better_cover(b, a),
        better_cover(a, b) && better_cover(b, a) ==> a == b,
{
    paths::path_order_is_total();
    let r = paths::path_order();
    assert(r(a, b) || r(b, a));
    if r(a, b) && r(b, a) {
        assert(a == b);
    }
}

/// A folder has one cover at most.
pub proof fn one_folder_cover(files: Seq<Seq<char>>, a: Seq<char>, b: Seq<char>)
    requires
        is_folder_cover(files, a),
        is_folder_cover(files, b),
    ensures
        a == b,
{
    let i = choose|i: int| 0 <= i < files.len() && files[i] == a;
    let j = choose|j: int| 0 <= j < files.len() && files[j] == b;
    assert(better_cover(a, files[j]));
    assert(better_cover(b, files[i]));
    better_one_way(a, b);
}

/// Which file of a book's folder holds a standalone cover image
/// (`cover.*`/`folder.*` preferred, otherwise the first image).
pub fn folder_cover_file(files: &Vec<String>) -> (r: Option<String>)
    ensures
        match r {
            Some(p) => is_folder_cover(views(files@), p@),
            None => forall|i: int| 0 <= i < files.len() ==> !is_image((#[trigger] files@[i])@),
        },
{
    let mut best: Option<usize> = None;
    let mut i: usize = 0;
    while i < files.len()
        invariant
            i <= files.len(),
            match best {
                Some(b) => {
                    &&& b < files.len()
                    &&& is_image(files@[b as int]@)
                    &&& forall|k: int|
                        0 <= k < i && is_image((#[trigger] files@[k])@) ==> better_cover(files@[b as int]@, files@[k]@)
                },
                None => forall|k: int| 0 <= k < i ==> !is_image((#[trigger] files@[k])@),
            },
        decreases files.len() - i,
    {
        if image(files[i].as_str()) {
            match best {
                Some(b) => {
                    proof {
                        better_one_way(files@[i as int]@, files@[b as int]@);
                        better_one_way(files@[i as int]@, files@[i as int]@);
                    }
                    if takes_over(files[i].as_str(), files[b].as_str()) {
                        proof {
                            assert forall|k: int| 0 <= k < i + 1 && is_image((#[trigger] files@[k])@) implies better_cover(
                                files@[i as int]@,
                                files@[k]@,
                            ) by {
                                if k < i {
                                    better_carries_over(files@[i as int]@, files@[b as int]@, files@[k]@);
                                }
                            }
                        }
                        best = Some(i);
                    }
                },
                None => {
                    proof {
                        better_one_way(files@[i as int]@, files@[i as int]@);
                    }
                    best = Some(i);
                },
            }
        }
        i = i + 1;
    }
    match best {
        Some(b) => {
            proof {
                let v = views(files@);
                assert(v[b as int] == files@[b as int]@);
                assert forall|k: int| 0 <= k < v.len() && is_image(#[trigger] v[k]) implies better_cover(
                    files@[b as int]@,
                    v[k],
                ) by {
                    assert(v[k] == files@[k]@);
                }
            }
            Some(files[b].clone())
        },
        None => None,
    }
}

/// The cover that the image file of a folder makes.
pub fn folder_cover(path: &str, data: Vec<u8>) -> (r: Cover)
    ensures
        r.data@ == data@,
        r.is_png == (extension_of(path@) is Some && ascii_lowered(extension_of(path@)->Some_0) == "png"@),
{
    let is_png = match paths::ext_of(path) {
        Some(e) => text::same(e.as_str(), "png"),
        None => false,
    };
    Cover { data, is_png }
}

// ---- chapters --------------------------------------------------------------

/// The number of the last chapter that begins at or before a position.
pub open spec fn chapter_of(chapters: Seq<ChapterView>, pos: nat) -> Option<usize>
    decreases chapters.len(),
{
    if chapters.len() == 0 {
        None
    } else if chapters.last().start <= pos {
        Some(chapters.last().index)
    } else {
        chapter_of(chapters.drop_last(), pos)
    }
}

/// Given a playback position, the index of the chapter containing it.
pub fn chapter_at(chapters: &[Chapter], pos: Duration) -> (r: Option<usize>)
    ensures
        r == chapter_of(views(chapters@), pos@),
{
    let mut n = chapters.len();
    let ghost all = views(chapters@);
    assert(all.take(all.len() as int) =~= all);
    while n > 0
        invariant
            n <= chapters.len(),
            all == views(chapters@),
            chapter_of(all, pos@) == chapter_of(all.take(n as int), pos@),
        decreases n,
    {
        assert(all.take(n as int).drop_last() =~= all.take(n - 1));
        assert(all.take(n as int).last() == chapters@[n - 1]@);
        n = n - 1;
        if chapters[n].start.at_most(&pos) {
            return Some(chapters[n].index);
        }
    }
    None
}

/// Where chapters are numbered and follow each other in time, the chapter at a
/// position is the one that has begun while the next has not.
pub proof fn chapter_holds_position(chapters: Seq<ChapterView>, pos: nat, i: int)
    requires
        0 <= i < chapters.len() <= usize::MAX,
        forall|k: int| 0 <= k < chapters.len() ==> (#[trigger] chapters[k]).index == k,
        forall|j: int, k: int|
            0 <= j < k < chapters.len() ==> (#[trigger] chapters[j]).start <= (#[trigger] chapters[k]).start,
        chapters[i].start <= pos,
        i + 1 < chapters.len() ==> pos < chapters[i + 1].start,
    ensures
        chapter_of(chapters, pos) == Some(i as usize),
    decreases chapters.len(),
{
    if i < chapters.len() - 1 {
        let t = chapters.drop_last();
        assert(chapters[i + 1].start <= chapters[chapters.len() - 1].start);
        assert forall|k: int| 0 <= k < t.len() implies (#[trigger] t[k]).index == k by {
            assert(chapters[k].index == k);
        }
        assert forall|j: int, k: int| 0 <= j < k < t.len() implies (#[trigger] t[j]).start <= (#[trigger] t[k]).start by {
            assert(chapters[j].start <= chapters[k].start);
        }
        chapter_holds_position(t, pos, i);
    }
}

} // verus!
