//! The names in paths, told by the characters that a path is put together from,
//! and the order of paths.

use vstd::prelude::*;

use crate::library::imported::{says_something, trimming_leaves_what_is_said};
use crate::library::listed::{same_but_case, small};
use crate::library::meta::{
    is_folder_cover, is_image, reader_of, track_title, FileTags, GeneralTags, Mp4Tags, TagReader, TagsView,
};
use crate::library::scan::{audiobook_path, standalone_path};
use crate::order::{lex_less, lex_order};
use crate::paths::{
    extension_of, last_dot, name_of, path_leq, path_order, path_order_is_total, rank, ranks, ranks_tell_paths,
    sorted_paths, stem_of,
};
use crate::text::{ascii_lower, ascii_lowered, split_append, split_at, split_without};

verus! {

// ---- names -----------------------------------------------------------------

/// Whether a text can be the name of a file in a folder.
pub open spec fn is_name(s: Seq<char>) -> bool {
    &&& s.len() > 0
    &&& forall|i: int| 0 <= i < s.len() ==> #[trigger] s[i] != '/'
    &&& s != seq!['.']
    &&& s != seq!['.', '.']
}

/// The path of something in a folder.
pub open spec fn joined(dir: Seq<char>, name: Seq<char>) -> Seq<char> {
    dir.push('/') + name
}

/// What is in a folder has the name it was put there under; so has a path that is
/// no more than a name.
pub proof fn file_has_its_name(dir: Seq<char>, name: Seq<char>)
    requires
        is_name(name),
    ensures
        name_of(joined(dir, name)) == Some(name),
        name_of(name) == Some(name),
{
    reveal(Seq::filter);
    assert(!name.contains('/'));
    split_append(dir, name, '/');
    split_without(name, '/');
    let p = |p: Seq<char>| p.len() > 0 && p != seq!['.'];
    let pieces = split_at(dir, '/').push(name);
    assert(pieces.drop_last() =~= split_at(dir, '/'));
    assert(pieces.filter(p).last() == name);
    let one = seq![name];
    assert(one.drop_last() =~= Seq::<Seq<char>>::empty());
    assert(one.filter(p) =~= seq![name]);
}

/// A slash at the end of a path, or a dot behind it, does not change the name; two
/// dots there have none, nor has an empty path.
pub proof fn slash_at_the_end_names_nothing(path: Seq<char>)
    ensures
        name_of(path.push('/')) == name_of(path),
        name_of(joined(path, seq!['.'])) == name_of(path),
        name_of(joined(path, seq!['.', '.'])) is None,
        name_of(Seq::empty()) is None,
{
    reveal(Seq::filter);
    let p = |p: Seq<char>| p.len() > 0 && p != seq!['.'];
    let none = Seq::<char>::empty();
    let before = split_at(path, '/');
    split_append(path, none, '/');
    assert(path.push('/') + none =~= path.push('/'));
    assert(before.push(none).drop_last() =~= before);
    let dot = seq!['.'];
    assert(!dot.contains('/'));
    split_append(path, dot, '/');
    assert(before.push(dot).drop_last() =~= before);
    let dots = seq!['.', '.'];
    assert(!dots.contains('/'));
    assert(dots.len() == 2 && dot.len() == 1);
    split_append(path, dots, '/');
    assert(before.push(dots).drop_last() =~= before);
    assert(before.push(dots).filter(p).last() == dots);
    split_without(none, '/');
    let one = seq![none];
    assert(one.drop_last() =~= Seq::<Seq<char>>::empty());
    assert(one.last() == none && !p(none));
    assert(one.drop_last().filter(p).len() == 0);
    assert(one.filter(p).len() == 0);
}

proof fn dot_is_found(s: Seq<char>, k: int)
    requires
        -1 <= k < s.len(),
        k >= 0 ==> s[k] == '.',
        forall|i: int| k < i < s.len() ==> #[trigger] s[i] != '.',
    ensures
        last_dot(s) == k,
    decreases s.len(),
{
    if s.len() > 0 && k < s.len() - 1 {
        let t = s.drop_last();
        assert(s[s.len() - 1] != '.');
        assert forall|i: int| k < i < t.len() implies #[trigger] t[i] != '.' by {
            assert(s[i] != '.');
        }
        dot_is_found(t, k);
    }
}

/// A file's name that is a stem, a dot and an ending without a dot has that stem
/// and that ending.
pub proof fn stem_and_ending(dir: Seq<char>, stem: Seq<char>, ending: Seq<char>)
    requires
        stem.len() > 0,
        is_name(stem + seq!['.'] + ending),
        forall|i: int| 0 <= i < ending.len() ==> #[trigger] ending[i] != '.',
    ensures
        extension_of(joined(dir, stem + seq!['.'] + ending)) == Some(ending),
        stem_of(joined(dir, stem + seq!['.'] + ending)) == Some(stem),
{
    let name = stem + seq!['.'] + ending;
    file_has_its_name(dir, name);
    let k = stem.len() as int;
    assert(name[k] == '.');
    assert forall|i: int| k < i < name.len() implies #[trigger] name[i] != '.' by {
        assert(name[i] == ending[i - k - 1]);
    }
    dot_is_found(name, k);
    assert(name.skip(k + 1) =~= ending);
    assert(name.take(k) =~= stem);
}

/// A file's name without a dot, but for one at its beginning, has no ending and is
/// all stem.
pub proof fn name_without_an_ending(dir: Seq<char>, name: Seq<char>)
    requires
        is_name(name),
        forall|i: int| 1 <= i < name.len() ==> #[trigger] name[i] != '.',
    ensures
        extension_of(joined(dir, name)) is None,
        stem_of(joined(dir, name)) == Some(name),
{
    file_has_its_name(dir, name);
    if name[0] == '.' {
        dot_is_found(name, 0);
    } else {
        assert forall|i: int| -1 < i < name.len() implies #[trigger] name[i] != '.' by {}
        dot_is_found(name, -1);
    }
}

// ---- endings ---------------------------------------------------------------

proof fn lowered_is(e: Seq<char>, low: Seq<char>)
    requires
        forall|i: int| 0 <= i < low.len() ==> !('A' <= #[trigger] low[i] <= 'Z'),
    ensures
        (ascii_lowered(e) == low) == same_but_case(e, low),
{
    if ascii_lowered(e) == low {
        assert(ascii_lowered(e).len() == e.len());
        assert forall|k: int| 0 <= k < e.len() implies small(#[trigger] e[k]) == small(low[k]) by {
            assert(ascii_lowered(e)[k] == ascii_lower(e[k]));
            assert(!('A' <= low[k] <= 'Z'));
        }
    }
    if same_but_case(e, low) {
        assert forall|k: int| 0 <= k < e.len() implies ascii_lowered(e)[k] == low[k] by {
            assert(ascii_lowered(e)[k] == ascii_lower(e[k]));
            assert(!('A' <= low[k] <= 'Z'));
            assert(small(e[k]) == small(low[k]));
        }
        assert(ascii_lowered(e) =~= low);
    }
}

/// Whether an ending is this one, in whatever case.
pub open spec fn ends_in(e: Seq<char>, low: &str) -> bool {
    same_but_case(e, low@)
}

/// Which files are of the MP4 family, which hold a book, and which hold a book of
/// their own, goes by what follows the last dot of their names, in whatever case;
/// a file without it holds none.
pub proof fn ending_tells_the_kind(path: Seq<char>)
    ensures
        extension_of(path) is None ==> reader_of(path) == TagReader::General && !audiobook_path(path) && !standalone_path(path)
            && !is_image(path),
        extension_of(path) matches Some(e) ==> {
            &&& reader_of(path) == TagReader::Mp4 <==> ends_in(e, "m4b") || ends_in(e, "m4a") || ends_in(e, "mp4")
            &&& standalone_path(path) <==> ends_in(e, "m4b") || ends_in(e, "mp4")
            &&& audiobook_path(path) <==> ends_in(e, "m4b") || ends_in(e, "m4a") || ends_in(e, "mp4") || ends_in(e, "mp3")
                || ends_in(e, "flac") || ends_in(e, "ogg") || ends_in(e, "oga") || ends_in(e, "wav")
            &&& is_image(path) <==> ends_in(e, "jpg") || ends_in(e, "jpeg") || ends_in(e, "png")
        },
{
    reveal_strlit("m4b");
    reveal_strlit("m4a");
    reveal_strlit("mp4");
    reveal_strlit("jpg");
    reveal_strlit("jpeg");
    reveal_strlit("png");
    reveal_strlit("mp3");
    reveal_strlit("flac");
    reveal_strlit("ogg");
    reveal_strlit("oga");
    reveal_strlit("wav");
    if extension_of(path) is Some {
        let e = extension_of(path)->Some_0;
        lowered_is(e, "m4b"@);
        lowered_is(e, "m4a"@);
        lowered_is(e, "mp4"@);
        lowered_is(e, "mp3"@);
        lowered_is(e, "flac"@);
        lowered_is(e, "ogg"@);
        lowered_is(e, "oga"@);
        lowered_is(e, "wav"@);
        lowered_is(e, "jpg"@);
        lowered_is(e, "jpeg"@);
        lowered_is(e, "png"@);
    }
}

// ---- covers ----------------------------------------------------------------

/// Whether a file's name, without its ending, is that of a cover.
pub open spec fn called_cover(path: Seq<char>) -> bool {
    stem_of(path) matches Some(s) && (same_but_case(s, "cover"@) || same_but_case(s, "folder"@))
}

/// The cover of a folder is one of its images. If any image is called `cover` or
/// `folder`, in whatever case, the one taken is; and of those that could be taken
/// it is the first in the order of paths.
pub proof fn cover_is_the_first_so_called(files: Seq<Seq<char>>, path: Seq<char>, i: int)
    requires
        is_folder_cover(files, path),
        0 <= i < files.len(),
        is_image(files[i]),
    ensures
        files.contains(path),
        is_image(path),
        called_cover(files[i]) ==> called_cover(path),
        called_cover(files[i]) == called_cover(path) ==> path_leq(path, files[i]),
{
    reveal_strlit("cover");
    reveal_strlit("folder");
    assert(crate::library::meta::better_cover(path, files[i]));
    if stem_of(path) is Some {
        lowered_is(stem_of(path)->Some_0, "cover"@);
        lowered_is(stem_of(path)->Some_0, "folder"@);
    }
    if stem_of(files[i]) is Some {
        lowered_is(stem_of(files[i])->Some_0, "cover"@);
        lowered_is(stem_of(files[i])->Some_0, "folder"@);
    }
}

// ---- tags ------------------------------------------------------------------

/// The tags of an MP4-family file make a book: the artist is its author, the
/// composer its reader. Its chapters are those of the chapter track in their order,
/// numbered from zero, or those of the chapter list where the track has none.
pub proof fn book_of_mp4_tags(found: Mp4Tags, path: Seq<char>)
    requires
        found.chapter_track@.len() <= usize::MAX,
        found.chapter_list@.len() <= usize::MAX,
    ensures
        ({
            let m = FileTags::Mp4(found).meta(path);
            let t = found.tags@;
            &&& m.title == t.title && m.author == t.artist && m.reader == t.composer && m.album == t.album
            &&& m.cover == t.picture
            &&& m.duration == Some(found.duration@)
            &&& m.file_name == name_of(path)
            &&& found.chapter_track@.len() > 0 ==> m.chapters.len() == found.chapter_track@.len()
            &&& found.chapter_track@.len() == 0 ==> m.chapters.len() == found.chapter_list@.len()
            &&& forall|k: int|
                0 <= k < m.chapters.len() ==> {
                    let mark = if found.chapter_track@.len() > 0 {
                        found.chapter_track@[k]
                    } else {
                        found.chapter_list@[k]
                    };
                    &&& (#[trigger] m.chapters[k]).index == k
                    &&& m.chapters[k].title == mark.title@
                    &&& m.chapters[k].start == mark.start@
                }
        }),
{
}

/// The tags of another file make a book in the same way, without chapters: the
/// tag that is usual for the format counts, or else the first.
pub proof fn book_of_other_tags(found: GeneralTags, path: Seq<char>)
    ensures
        ({
            let m = FileTags::General(found).meta(path);
            &&& m.duration == Some(found.duration@)
            &&& m.file_name == name_of(path)
            &&& m.chapters.len() == 0
            &&& found.primary matches Some(t) ==> m.title == t@.title && m.author == t@.artist && m.reader == t@.composer
                && m.album == t@.album && m.cover == t@.picture
            &&& found.primary is None ==> (found.first matches Some(t) ==> m.title == t@.title && m.author == t@.artist
                && m.reader == t@.composer && m.album == t@.album && m.cover == t@.picture)
            &&& found.primary is None && found.first is None ==> m.title is None && m.author is None && m.reader is None
                && m.album is None && m.cover is None
        }),
{
}

/// A member file is titled by its tags if these say something, or else by its name
/// without the ending.
pub proof fn track_is_titled(path: Seq<char>, tag: Option<TagsView>)
    ensures
        tag is Some && tag->Some_0.title is Some && says_something(tag->Some_0.title->Some_0) ==> track_title(path, tag)
            == tag->Some_0.title->Some_0,
        tag is None || tag->Some_0.title is None || !says_something(tag->Some_0.title->Some_0) ==> {
            &&& stem_of(path) is Some ==> track_title(path, tag) == stem_of(path)->Some_0
            &&& stem_of(path) is None ==> track_title(path, tag) == "Track"@
        },
{
    if tag is Some && tag->Some_0.title is Some {
        trimming_leaves_what_is_said(tag->Some_0.title->Some_0);
    }
}

// ---- the order of paths ----------------------------------------------------

/// Whether two paths are alike before the `k`th character, and there `a` ends, or
/// has a slash, or has the lower character where neither has a slash.
pub open spec fn goes_first_at(a: Seq<char>, b: Seq<char>, k: int) -> bool {
    &&& 0 <= k <= a.len()
    &&& k < b.len()
    &&& forall|m: int| 0 <= m < k ==> #[trigger] a[m] == b[m]
    &&& k < a.len() ==> a[k] != b[k] && (a[k] == '/' || (b[k] != '/' && a[k] < b[k]))
}

proof fn slash_ranks_first(a: char, b: char)
    ensures
        rank(a) < rank(b) <==> a != b && (a == '/' || (b != '/' && a < b)),
        rank(a) == rank(b) <==> a == b,
{
}

proof fn ranked_apart(a: Seq<char>, b: Seq<char>) -> (k: int)
    requires
        lex_less(ranks(a), ranks(b)),
    ensures
        goes_first_at(a, b, k),
    decreases a.len(),
{
    assert(ranks(a).len() == a.len() && ranks(b).len() == b.len());
    if a.len() == 0 {
        0
    } else {
        assert(ranks(a)[0] == rank(a[0]) && ranks(b)[0] == rank(b[0]));
        slash_ranks_first(a[0], b[0]);
        if a[0] != b[0] {
            0
        } else {
            assert(ranks(a).drop_first() =~= ranks(a.drop_first()));
            assert(ranks(b).drop_first() =~= ranks(b.drop_first()));
            let k = ranked_apart(a.drop_first(), b.drop_first());
            assert forall|m: int| 0 <= m < k + 1 implies #[trigger] a[m] == b[m] by {
                if m > 0 {
                    assert(a.drop_first()[m - 1] == b.drop_first()[m - 1]);
                }
            }
            if k + 1 < a.len() {
                assert(a.drop_first()[k] == a[k + 1] && b.drop_first()[k] == b[k + 1]);
            }
            k + 1
        }
    }
}

proof fn apart_ranked(a: Seq<char>, b: Seq<char>, k: int)
    requires
        goes_first_at(a, b, k),
    ensures
        lex_less(ranks(a), ranks(b)),
    decreases a.len(),
{
    assert(ranks(a).len() == a.len() && ranks(b).len() == b.len());
    if a.len() > 0 {
        assert(ranks(a)[0] == rank(a[0]) && ranks(b)[0] == rank(b[0]));
        slash_ranks_first(a[0], b[0]);
        if k > 0 {
            assert(a[0] == b[0]);
            assert(ranks(a).drop_first() =~= ranks(a.drop_first()));
            assert(ranks(b).drop_first() =~= ranks(b.drop_first()));
            let x = a.drop_first();
            let y = b.drop_first();
            assert forall|m: int| 0 <= m < k - 1 implies #[trigger] x[m] == y[m] by {
                assert(a[m + 1] == b[m + 1]);
            }
            if k - 1 < x.len() {
                assert(x[k - 1] == a[k] && y[k - 1] == b[k]);
            }
            apart_ranked(x, y, k - 1);
        }
    }
}

/// Of two paths, the one goes first that ends, has a slash or has the lower
/// character where they part: so what is in a folder stands together, and before
/// what only begins alike.
pub proof fn paths_part(a: Seq<char>, b: Seq<char>)
    ensures
        a != b && path_leq(a, b) <==> exists|k: int| goes_first_at(a, b, k),
        path_leq(a, a),
{
    lex_order(ranks(a), ranks(b));
    lex_order(ranks(a), ranks(a));
    if a != b && path_leq(a, b) {
        if ranks(a) == ranks(b) {
            ranks_tell_paths(a, b);
        }
        let k = ranked_apart(a, b);
        assert(goes_first_at(a, b, k));
    }
    if exists|k: int| goes_first_at(a, b, k) {
        let k = choose|k: int| goes_first_at(a, b, k);
        apart_ranked(a, b, k);
    }
}

/// Sorting paths keeps each of them as often as it is there, and puts them in
/// order.
pub proof fn sorting_keeps_paths(paths: Seq<Seq<char>>)
    ensures
        sorted_paths(paths).len() == paths.len(),
        sorted_paths(paths).to_multiset() == paths.to_multiset(),
        forall|i: int, j: int|
            0 <= i < j < sorted_paths(paths).len() ==> path_leq(#[trigger] sorted_paths(paths)[i], #[trigger] sorted_paths(paths)[j]),
{
    path_order_is_total();
    paths.lemma_sort_by_ensures(path_order());
    let s = sorted_paths(paths);
    s.to_multiset_ensures();
    paths.to_multiset_ensures();
    assert(s.len() == s.to_multiset().len());
    assert forall|i: int, j: int| 0 <= i < j < s.len() implies path_leq(#[trigger] s[i], #[trigger] s[j]) by {
        let r = path_order();
        assert(r(s[i], s[j]));
    }
}

} // verus!
