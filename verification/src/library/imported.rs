//! What an import makes of a folder or a file, told by what was found and what the
//! library holds afterwards.

use vstd::prelude::*;

use crate::library::laws::tracks_read_back;
use crate::library::rescan::{has_single, singles_removed};
use crate::library::scan::{
    folder_meta, multi_imported, part_paths, single_imported, total_length, track_list, tracks_follow_each_other,
    unreadable, without_singles, PartView, ReportView,
};
use crate::library::tables::{
    has_path, next_book_id, put_multi_book_keeps_valid, track_key, BookRowView, DatabaseView,
};
use crate::library::{CoverView, MetaView, TrackView};
use crate::order::listing;
use crate::text::{is_white_space, trimmed};

verus! {

// ---- the tracks of a folder ------------------------------------------------

/// What a track takes over from its part.
pub open spec fn played(t: TrackView) -> (Seq<char>, Seq<char>, nat) {
    (t.path, t.title, t.duration)
}

/// What a readable part is played as.
pub open spec fn playable(p: PartView) -> (Seq<char>, Seq<char>, nat) {
    (p.path, p.info->Ok_0.0, p.info->Ok_0.1)
}

/// The parts that could be read, in their order.
pub open spec fn readable_parts(parts: Seq<PartView>) -> Seq<PartView> {
    parts.filter(|p: PartView| p.info is Ok)
}

/// The parts that could not be read, in their order.
pub open spec fn unreadable_parts(parts: Seq<PartView>) -> Seq<PartView> {
    parts.filter(|p: PartView| p.info is Err)
}

/// The tracks of a folder are its readable parts in order: they have the paths,
/// the titles and the durations of these, and there are no others. What could not
/// be read is reported in order, each part with its own reason.
pub proof fn tracks_are_the_readable_parts(parts: Seq<PartView>)
    ensures
        track_list(parts).map_values(|t: TrackView| played(t)) == readable_parts(parts).map_values(
            |p: PartView| playable(p),
        ),
        unreadable(parts) == unreadable_parts(parts).map_values(|p: PartView| (p.path, p.info->Err_0)),
    decreases parts.len(),
{
    reveal(Seq::filter);
    let f = |t: TrackView| played(t);
    let g = |p: PartView| playable(p);
    let h = |p: PartView| (p.path, p.info->Err_0);
    if parts.len() == 0 {
        assert(track_list(parts).map_values(f) =~= readable_parts(parts).map_values(g));
        assert(unreadable(parts) =~= unreadable_parts(parts).map_values(h));
    } else {
        let few = parts.drop_last();
        let last = parts.last();
        tracks_are_the_readable_parts(few);
        if last.info is Ok {
            assert(readable_parts(parts) =~= readable_parts(few).push(last));
            assert(track_list(parts).map_values(f) =~= track_list(few).map_values(f).push(playable(last)));
            assert(readable_parts(parts).map_values(g) =~= readable_parts(few).map_values(g).push(playable(last)));
        } else {
            assert(unreadable_parts(parts) =~= unreadable_parts(few).push(last));
            assert(unreadable_parts(parts).map_values(h) =~= unreadable_parts(few).map_values(h).push(h(last)));
        }
    }
}

/// Where every part of a folder can be read, track `i` is part `i`: it has its
/// number, its path, its title and its duration, and begins when the parts before
/// it are over.
pub proof fn each_part_is_a_track(parts: Seq<PartView>, i: int)
    requires
        parts.len() <= usize::MAX,
        forall|k: int| 0 <= k < parts.len() ==> (#[trigger] parts[k]).info is Ok,
        0 <= i < parts.len(),
    ensures
        track_list(parts).len() == parts.len(),
        unreadable(parts).len() == 0,
        ({
            let t = track_list(parts)[i];
            &&& t.idx == i
            &&& t.path == parts[i].path
            &&& t.title == parts[i].info->Ok_0.0
            &&& t.duration == parts[i].info->Ok_0.1
            &&& i == 0 ==> t.start == 0
            &&& i > 0 ==> t.start == track_list(parts)[i - 1].start + parts[i - 1].info->Ok_0.1
        }),
{
    tracks_are_the_readable_parts(parts);
    tracks_follow_each_other(parts);
    crate::library::tables::filter_all(parts, |p: PartView| p.info is Ok);
    let f = |t: TrackView| played(t);
    let g = |p: PartView| playable(p);
    let t = track_list(parts);
    assert(t.map_values(f).len() == t.len());
    assert(parts.map_values(g).len() == parts.len());
    assert(t.map_values(f)[i] == played(t[i]));
    assert(parts.map_values(g)[i] == playable(parts[i]));
    if i > 0 {
        assert(t.map_values(f)[i - 1] == played(t[i - 1]));
        assert(parts.map_values(g)[i - 1] == playable(parts[i - 1]));
        assert(t[i].start == t[i - 1].start + t[i - 1].duration);
    }
}

// ---- texts that say something ----------------------------------------------

/// Whether a text holds anything but white space.
pub open spec fn says_something(s: Seq<char>) -> bool {
    exists|k: int| 0 <= k < s.len() && !is_white_space(#[trigger] s[k])
}

proof fn end_trimmed(s: Seq<char>)
    ensures
        (crate::text::trim_end(s).len() > 0) == says_something(s),
    decreases s.len(),
{
    if s.len() > 0 {
        let t = s.drop_last();
        if is_white_space(s.last()) {
            end_trimmed(t);
            if says_something(s) {
                let k = choose|k: int| 0 <= k < s.len() && !is_white_space(#[trigger] s[k]);
                assert(t[k] == s[k]);
            }
            if says_something(t) {
                let k = choose|k: int| 0 <= k < t.len() && !is_white_space(#[trigger] t[k]);
                assert(s[k] == t[k]);
            }
        } else {
            assert(!is_white_space(s[s.len() - 1]));
        }
    }
}

proof fn start_trimmed(s: Seq<char>)
    ensures
        says_something(crate::text::trim_start(s)) == says_something(s),
    decreases s.len(),
{
    if s.len() > 0 && is_white_space(s[0]) {
        let t = s.drop_first();
        start_trimmed(t);
        if says_something(s) {
            let k = choose|k: int| 0 <= k < s.len() && !is_white_space(#[trigger] s[k]);
            assert(t[k - 1] == s[k]);
        }
        if says_something(t) {
            let k = choose|k: int| 0 <= k < t.len() && !is_white_space(#[trigger] t[k]);
            assert(s[k + 1] == t[k]);
        }
    }
}

/// What is left of a text without the white space around it is something if and
/// only if the text says something.
pub proof fn trimming_leaves_what_is_said(s: Seq<char>)
    ensures
        (trimmed(s).len() > 0) == says_something(s),
{
    start_trimmed(s);
    end_trimmed(crate::text::trim_start(s));
}

// ---- a folder in the library -----------------------------------------------

/// Whether no book is stored under this path.
pub open spec fn is_new(db: DatabaseView, path: Seq<char>) -> bool {
    forall|k: int| 0 <= k < db.books.len() ==> (#[trigger] db.books[k]).book.path != path
}

/// Whether there is a number for one more book.
pub open spec fn has_room(db: DatabaseView) -> bool {
    forall|k: int| 0 <= k < db.books.len() ==> (#[trigger] db.books[k]).book.id < i64::MAX
}

proof fn room_is_enough(db: DatabaseView)
    requires
        has_room(db),
    ensures
        next_book_id(db.books) <= i64::MAX,
{
    if db.books.len() > 0 {
        assert(db.books[db.books.len() - 1].book.id < i64::MAX);
    }
}

proof fn folder_cleaned(db: DatabaseView, dir: Seq<char>, parts: Seq<PartView>)
    requires
        db.valid(),
        is_new(db, dir),
        has_room(db),
    ensures
        ({
            let clean = without_singles(db, part_paths(parts));
            &&& clean.valid()
            &&& !has_path(clean.books, dir)
            &&& clean.can_put_book(dir)
            &&& forall|k: int|
                0 <= k < clean.books.len() ==> db.books.contains(#[trigger] clean.books[k])
            &&& forall|i: int|
                0 <= i < parts.len() ==> !has_single(clean, (#[trigger] parts[i]).path)
        }),
{
    let paths = part_paths(parts);
    let clean = without_singles(db, paths);
    singles_removed(db, paths);
    assert(!has_path(db.books, dir));
    assert(!has_path(clean.books, dir));
    assert forall|k: int| 0 <= k < clean.books.len() implies (#[trigger] clean.books[k]).book.id < i64::MAX by {
        assert(db.books.contains(clean.books[k]));
    }
    room_is_enough(clean);
    assert forall|i: int| 0 <= i < parts.len() implies !has_single(clean, (#[trigger] parts[i]).path) by {
        assert(paths[i] == parts[i].path);
        assert(paths.contains(parts[i].path));
    }
}

/// A folder that is new to the library and has a readable part becomes one
/// multi-file book under the folder's path, unplayed, added at that time, and its
/// tracks are listed as the readable parts in order, numbered from zero, each
/// beginning where the one before it ends. It is counted as imported, and what
/// could not be read is reported.
pub proof fn folder_becomes_a_book(
    db: DatabaseView,
    report: ReportView,
    dir: Seq<char>,
    header: Option<MetaView>,
    cover: Option<CoverView>,
    parts: Seq<PartView>,
    now: i64,
)
    requires
        db.valid(),
        is_new(db, dir),
        has_room(db),
        parts.len() <= usize::MAX,
        readable_parts(parts).len() > 0,
    ensures
        ({
            let (after, told) = multi_imported(db, report, dir, header, cover, parts, now);
            let b = after.books.last().book;
            let l = listing(after.tracks_in(b.id), |t: TrackView| track_key(t));
            &&& after.books.len() > 0
            &&& b.path == dir
            &&& b.is_multi
            &&& b.position == 0 && !b.finished && b.last_played is None
            &&& b.added_at == now
            &&& b.chapter_count == readable_parts(parts).len()
            &&& b.speed_bits == 0x3f80_0000
            &&& folder_meta(dir, header, cover, b.duration).title == Some(b.title)
            &&& folder_meta(dir, header, cover, b.duration).author == b.author
            &&& folder_meta(dir, header, cover, b.duration).reader == b.reader
            &&& folder_meta(dir, header, cover, b.duration).cover == b.cover
            &&& folder_meta(dir, header, cover, b.duration).album == after.books.last().album
            &&& b.duration == l.last().start + l.last().duration
            &&& l.len() == readable_parts(parts).len()
            &&& forall|i: int|
                0 <= i < l.len() ==> {
                    &&& (#[trigger] l[i]).idx == i
                    &&& played(l[i]) == playable(readable_parts(parts)[i])
                    &&& l[i].start == if i == 0 {
                        0
                    } else {
                        l[i - 1].start + l[i - 1].duration
                    }
                }
            &&& told.imported == report.imported + 1
            &&& told.skipped_existing == report.skipped_existing
            &&& told.failed == report.failed + unreadable_parts(parts).map_values(|p: PartView| (p.path, p.info->Err_0))
        }),
{
    let (after, told) = multi_imported(db, report, dir, header, cover, parts, now);
    let clean = without_singles(db, part_paths(parts));
    folder_cleaned(db, dir, parts);
    tracks_are_the_readable_parts(parts);
    tracks_follow_each_other(parts);
    let tracks = track_list(parts);
    let f = |t: TrackView| played(t);
    let g = |p: PartView| playable(p);
    assert(tracks.map_values(f).len() == tracks.len());
    assert(readable_parts(parts).map_values(g).len() == readable_parts(parts).len());
    let meta = folder_meta(dir, header, cover, total_length(parts));
    let id = clean.id_for_path(dir);
    tracks_read_back(clean, dir, meta, tracks, now, if id == 0 { 1 } else { 0 });
    put_multi_book_keeps_valid(clean, dir, meta, tracks, now);
    let key = |t: TrackView| track_key(t);
    let l = listing(after.tracks_in(id), key);
    assert(after.books.last().book.id == id);
    numbers_settle(tracks, l);
    assert forall|i: int| 0 <= i < l.len() implies {
        &&& (#[trigger] l[i]).idx == i
        &&& played(l[i]) == playable(readable_parts(parts)[i])
        &&& l[i].start == if i == 0 {
            0
        } else {
            l[i - 1].start + l[i - 1].duration
        }
    } by {
        assert(tracks[i].idx == i);
        assert(tracks.map_values(f)[i] == played(tracks[i]));
        assert(readable_parts(parts).map_values(g)[i] == playable(readable_parts(parts)[i]));
        if i > 0 {
            assert(tracks[i].start == tracks[i - 1].start + tracks[i - 1].duration);
        }
    }
}

/// Rows that are numbered from zero and listed by number stay as they are.
proof fn numbers_settle(tracks: Seq<TrackView>, l: Seq<TrackView>)
    requires
        forall|i: int| 0 <= i < tracks.len() ==> (#[trigger] tracks[i]).idx == i,
        l.len() == tracks.len(),
        forall|i: int, j: int| 0 <= i < j < l.len() ==> (#[trigger] l[i]).idx < (#[trigger] l[j]).idx,
        forall|t: TrackView| #[trigger] l.contains(t) == tracks.contains(t),
    ensures
        l == tracks,
{
    assert forall|i: int| 0 <= i < l.len() implies l[i] == tracks[i] by {
        place_is_number(tracks, l, i);
    }
    assert(l =~= tracks);
}

proof fn place_is_number(tracks: Seq<TrackView>, l: Seq<TrackView>, i: int)
    requires
        forall|k: int| 0 <= k < tracks.len() ==> (#[trigger] tracks[k]).idx == k,
        l.len() == tracks.len(),
        forall|j: int, k: int| 0 <= j < k < l.len() ==> (#[trigger] l[j]).idx < (#[trigger] l[k]).idx,
        forall|t: TrackView| #[trigger] l.contains(t) == tracks.contains(t),
        0 <= i < l.len(),
    ensures
        l[i] == tracks[i],
    decreases i,
{
    assert(l.contains(l[i]));
    let m = choose|m: int| 0 <= m < tracks.len() && tracks[m] == l[i];
    assert(tracks.contains(tracks[i]));
    assert(l.contains(tracks[i]));
    let n = choose|n: int| 0 <= n < l.len() && l[n] == tracks[i];
    if n < i {
        place_is_number(tracks, l, n);
        assert(tracks[n].idx == n && tracks[i].idx == i);
    } else if n > i {
        assert(l[i].idx < l[n].idx);
        assert(m < i);
        place_is_number(tracks, l, m);
        assert(l[m].idx < l[i].idx);
    }
}

/// What is known of a folder's book comes from the first readable file: its album
/// or else its title names the book unless that says nothing, and then the folder's
/// name does; author, reader and album are taken over; the cover is the file's, or
/// else the image in the folder.
pub proof fn folder_is_named_by_its_first_file(dir: Seq<char>, header: Option<MetaView>, cover: Option<CoverView>, length: nat)
    ensures
        ({
            let m = folder_meta(dir, header, cover, length);
            &&& m.duration == Some(length)
            &&& m.title is Some
            &&& m.chapters.len() == 0
            &&& header matches Some(h) ==> {
                &&& m.author == h.author
                &&& m.reader == h.reader
                &&& m.album == h.album
                &&& h.cover is Some ==> m.cover == h.cover
                &&& h.cover is None ==> m.cover == cover
                &&& h.album is Some && says_something(h.album->Some_0) ==> m.title == h.album
                &&& h.album is None && h.title is Some && says_something(h.title->Some_0) ==> m.title == h.title
                &&& (h.album is Some && !says_something(h.album->Some_0)) || (h.album is None && (h.title is None
                    || !says_something(h.title->Some_0))) ==> m.title == Some(
                    match crate::paths::name_of(dir) {
                        Some(n) => n,
                        None => "Audiobook"@,
                    },
                )
            }
            &&& header is None ==> {
                &&& m.author is None && m.reader is None && m.album is None
                &&& m.cover == cover
                &&& m.title == Some(
                    match crate::paths::name_of(dir) {
                        Some(n) => n,
                        None => "Audiobook"@,
                    },
                )
            }
        }),
{
    if header is Some {
        let h = header->Some_0;
        if h.album is Some {
            trimming_leaves_what_is_said(h.album->Some_0);
        }
        if h.title is Some {
            trimming_leaves_what_is_said(h.title->Some_0);
        }
    }
}

/// Importing a folder leaves every other book as it was, but for those single-file
/// books that are its parts: these are gone. History, settings and locations are
/// not touched.
pub proof fn folder_spares_other_books(
    db: DatabaseView,
    report: ReportView,
    dir: Seq<char>,
    header: Option<MetaView>,
    cover: Option<CoverView>,
    parts: Seq<PartView>,
    now: i64,
    row: BookRowView,
)
    requires
        db.valid(),
        is_new(db, dir),
        has_room(db),
    ensures
        ({
            let after = multi_imported(db, report, dir, header, cover, parts, now).0;
            let is_part = exists|i: int| 0 <= i < parts.len() && (#[trigger] parts[i]).path == row.book.path;
            &&& db.books.contains(row) && (row.book.is_multi || !is_part) ==> after.books.contains(row)
            &&& row.book.path != dir && after.books.contains(row) ==> db.books.contains(row) && (row.book.is_multi || !is_part)
            &&& after.history == db.history
            &&& after.settings == db.settings
            &&& after.locations == db.locations
        }),
{
    let after = multi_imported(db, report, dir, header, cover, parts, now).0;
    let paths = part_paths(parts);
    let clean = without_singles(db, paths);
    folder_cleaned(db, dir, parts);
    singles_removed(db, paths);
    crate::library::rescan::rows_after_removal(db, paths, row);
    crate::library::rescan::removal_spares_the_rest(db, paths);
    let is_part = exists|i: int| 0 <= i < parts.len() && (#[trigger] parts[i]).path == row.book.path;
    assert(is_part == paths.contains(row.book.path)) by {
        if is_part {
            let i = choose|i: int| 0 <= i < parts.len() && (#[trigger] parts[i]).path == row.book.path;
            assert(paths[i] == row.book.path);
        }
        if paths.contains(row.book.path) {
            let i = choose|i: int| 0 <= i < paths.len() && paths[i] == row.book.path;
            assert(parts[i].path == row.book.path);
        }
    }
    if track_list(parts).len() > 0 {
        assert(after.books.drop_last() =~= clean.books);
        if clean.books.contains(row) {
            let k = choose|k: int| 0 <= k < clean.books.len() && clean.books[k] == row;
            assert(after.books[k] == row);
        }
        if row.book.path != dir && after.books.contains(row) {
            let k = choose|k: int| 0 <= k < after.books.len() && after.books[k] == row;
            assert(after.books.last().book.path == dir);
            assert(clean.books[k] == row);
        }
    }
}

/// A folder that is in the library already, as a book of several files, is counted
/// as such and stays as it is; nothing of it is reported. A folder of which no part
/// can be read becomes no book, and every part is reported.
pub proof fn folder_that_makes_no_book(
    db: DatabaseView,
    report: ReportView,
    dir: Seq<char>,
    header: Option<MetaView>,
    cover: Option<CoverView>,
    parts: Seq<PartView>,
    now: i64,
    i: int,
)
    requires
        db.valid(),
    ensures
        ({
            let (after, told) = multi_imported(db, report, dir, header, cover, parts, now);
            &&& 0 <= i < db.books.len() && db.books[i].book.path == dir && db.books[i].book.is_multi ==> {
                &&& after.books.contains(db.books[i])
                &&& told == (ReportView { skipped_existing: report.skipped_existing + 1, ..report })
                &&& forall|k: int| 0 <= k < after.books.len() ==> db.books.contains(#[trigger] after.books[k])
            }
            &&& is_new(db, dir) && readable_parts(parts).len() == 0 ==> {
                &&& told.imported == report.imported
                &&& told.skipped_existing == report.skipped_existing
                &&& told.failed == report.failed + parts.map_values(|p: PartView| (p.path, p.info->Err_0))
                &&& forall|k: int| 0 <= k < after.books.len() ==> db.books.contains(#[trigger] after.books[k])
            }
        }),
{
    let paths = part_paths(parts);
    let clean = without_singles(db, paths);
    singles_removed(db, paths);
    tracks_are_the_readable_parts(parts);
    if 0 <= i < db.books.len() && db.books[i].book.path == dir && db.books[i].book.is_multi {
        let row = db.books[i];
        crate::library::rescan::rows_after_removal(db, paths, row);
        let k = choose|k: int| 0 <= k < clean.books.len() && clean.books[k] == row;
        assert(clean.books[k].book.path == dir);
        assert(has_path(clean.books, dir));
    }
    if is_new(db, dir) && readable_parts(parts).len() == 0 {
        assert(!has_path(db.books, dir));
        assert(!has_path(clean.books, dir));
        let f = |t: TrackView| played(t);
        let g = |p: PartView| playable(p);
        assert(track_list(parts).map_values(f).len() == track_list(parts).len());
        assert(readable_parts(parts).map_values(g).len() == 0);
        assert forall|k: int| 0 <= k < parts.len() implies (#[trigger] parts[k]).info is Err by {
            if parts[k].info is Ok {
                crate::library::tables::filter_from(parts, |p: PartView| p.info is Ok);
                assert(parts.contains(parts[k]));
                assert(readable_parts(parts).contains(parts[k]));
            }
        }
        crate::library::tables::filter_all(parts, |p: PartView| p.info is Err);
    }
}

// ---- a file in the library -------------------------------------------------

/// A file that is new to the library and was read becomes a book of its own behind
/// all others, with what its tags say, unplayed, at the normal speed; one that could
/// not be read is reported with the reason and changes nothing; one that is in the
/// library already is counted and changes nothing.
pub proof fn file_becomes_a_book(
    db: DatabaseView,
    report: ReportView,
    path: Seq<char>,
    read: Result<MetaView, Seq<char>>,
    now: i64,
)
    requires
        has_room(db),
    ensures
        ({
            let (after, told) = single_imported(db, report, path, read, now);
            &&& is_new(db, path) && read is Ok ==> {
                let m = read->Ok_0;
                let b = after.books.last().book;
                &&& after.books.len() == db.books.len() + 1
                &&& after.books.drop_last() == db.books
                &&& b.path == path
                &&& b.title == m.display_title()
                &&& b.author == m.author && b.reader == m.reader && b.cover == m.cover
                &&& m.duration is Some ==> b.duration == m.duration->Some_0
                &&& m.duration is None ==> b.duration == 0
                &&& m.chapters.len() <= usize::MAX ==> b.chapter_count == m.chapters.len()
                &&& b.position == 0 && !b.finished && !b.is_multi && b.last_played is None
                &&& b.added_at == now
                &&& b.speed_bits == 0x3f80_0000
                &&& after.books.last().album == m.album
                &&& forall|k: int| 0 <= k < db.books.len() && db.valid() ==> (#[trigger] db.books[k]).book.id < b.id
                &&& told == (ReportView { imported: report.imported + 1, ..report })
            }
            &&& is_new(db, path) && read is Err ==> after == db && told == (ReportView {
                failed: report.failed.push((path, read->Err_0)),
                ..report
            })
            &&& !is_new(db, path) ==> after == db && told == (ReportView {
                skipped_existing: report.skipped_existing + 1,
                ..report
            })
            &&& after.history == db.history && after.tracks == db.tracks && after.bookmarks == db.bookmarks
        }),
{
    let after = single_imported(db, report, path, read, now).0;
    room_is_enough(db);
    if is_new(db, path) {
        assert(!has_path(db.books, path));
        if read is Ok {
            assert(after.books.drop_last() =~= db.books);
            let n = db.books.len();
            assert forall|k: int| 0 <= k < db.books.len() && db.valid() implies (#[trigger] db.books[k]).book.id
                < after.books.last().book.id by {
                if k < n - 1 {
                    assert(db.books[k].book.id < db.books[n - 1].book.id);
                }
            }
        }
    } else {
        let k = choose|k: int| 0 <= k < db.books.len() && (#[trigger] db.books[k]).book.path == path;
        assert(has_path(db.books, path));
    }
}

/// A book is shown by its title, or else by its album, or else by the name of its
/// file; and it is as long as its file says, or of no length.
pub proof fn book_is_shown_by_title(m: MetaView)
    ensures
        m.title is Some ==> m.display_title() == m.title->Some_0,
        m.title is None && m.album is Some ==> m.display_title() == m.album->Some_0,
        m.title is None && m.album is None && m.file_name is Some ==> m.display_title() == m.file_name->Some_0,
        m.title is None && m.album is None && m.file_name is None ==> m.display_title() == "Unknown book"@,
        m.duration is Some ==> m.length() == m.duration->Some_0,
        m.duration is None ==> m.length() == 0,
{
}

} // verus!
