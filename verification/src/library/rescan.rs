//! Scanning a storage location again.
//!
//! A scan is what comes of its steps, one after the other. What one scan did,
//! the next one of the same files finds done.

use vstd::prelude::*;

use crate::library::scan::{
    audio_files, folder_meta, folder_steps, folders, found_in, import_plan, multi_imported, part_paths, single_imported,
    standalone_path, steps_in, total_length, track_list, unreadable, without_singles, FoundView, PartView, ReportView,
    StepView,
};
use crate::library::tables::{
    filter_from, has_path, one_book_per_id, one_book_per_path, place_of_path, put_book_keeps_valid,
    put_multi_book_keeps_valid, without_book_keeps_valid, BookRowView, DatabaseView,
};
use crate::library::{CoverView, MetaView};
use crate::paths;
use crate::paths::sorted_paths;

verus! {

// ---- a scan ----------------------------------------------------------------

/// What can be read in a storage location: of each path, what the file there
/// says as a book of its own and as a part of one, or why it could not be read;
/// and the cover that each folder holds.
pub struct Shelf {
    pub read: spec_fn(Seq<char>) -> Result<MetaView, Seq<char>>,
    pub info: spec_fn(Seq<char>) -> Result<(Seq<char>, nat), Seq<char>>,
    pub cover: spec_fn(Seq<char>) -> Option<CoverView>,
}

impl Shelf {
    /// What the first readable one of the files says.
    pub open spec fn header(self, files: Seq<Seq<char>>) -> Option<MetaView>
        decreases files.len(),
    {
        if files.len() == 0 {
            None
        } else {
            match (self.read)(files[0]) {
                Ok(meta) => Some(meta),
                Err(_) => self.header(files.drop_first()),
            }
        }
    }

    /// The files as parts of a book.
    pub open spec fn parts(self, files: Seq<Seq<char>>) -> Seq<PartView> {
        files.map_values(|p: Seq<char>| PartView { path: p, info: (self.info)(p) })
    }

    /// What comes of one step of a scan, at time `now`: the library and the
    /// report after it.
    pub open spec fn imported(self, step: StepView, db: DatabaseView, report: ReportView, now: i64) -> (
        DatabaseView,
        ReportView,
    ) {
        match step {
            StepView::Single(path) => single_imported(db, report, path, (self.read)(path), now),
            StepView::Multi { dir, parts } => multi_imported(
                db,
                report,
                dir,
                self.header(parts),
                (self.cover)(dir),
                self.parts(parts),
                now,
            ),
        }
    }

    /// What comes of the steps of a scan, each at its time: the library and the
    /// report after the last.
    pub open spec fn scanned(self, steps: Seq<StepView>, db: DatabaseView, times: Seq<i64>) -> (DatabaseView, ReportView)
        decreases steps.len(),
    {
        if steps.len() == 0 {
            (db, ReportView::empty())
        } else {
            let (before, report) = self.scanned(steps.drop_last(), db, times);
            self.imported(steps.last(), before, report, times[steps.len() - 1])
        }
    }
}

/// Whether files can be found together: those at one path are in one folder, and
/// no folder is a file.
pub open spec fn is_tree(files: Seq<FoundView>) -> bool {
    &&& forall|i: int, j: int|
        0 <= i < files.len() && 0 <= j < files.len() && (#[trigger] files[i]).path == (#[trigger] files[j]).path
            ==> files[i].dir == files[j].dir
    &&& forall|i: int, j: int|
        0 <= i < files.len() && 0 <= j < files.len() ==> (#[trigger] files[i]).dir != (#[trigger] files[j]).path
}

/// Whether there are ids for so many more books.
pub open spec fn has_ids(db: DatabaseView, n: int) -> bool {
    &&& n <= i64::MAX
    &&& forall|i: int| 0 <= i < db.books.len() ==> (#[trigger] db.books[i]).book.id + n <= i64::MAX
}

// ---- what a step adds and removes ------------------------------------------

/// Whether there is a single-file book at this path.
pub open spec fn has_single(db: DatabaseView, path: Seq<char>) -> bool {
    has_path(db.books, path) && !db.books[place_of_path(db.books, path)].book.is_multi
}

/// A book is told by its path.
proof fn book_found(db: DatabaseView, i: int)
    requires
        db.valid(),
        0 <= i < db.books.len(),
    ensures
        has_path(db.books, db.books[i].book.path),
        has_single(db, db.books[i].book.path) == !db.books[i].book.is_multi,
{
    let path = db.books[i].book.path;
    assert(has_path(db.books, path));
    one_book_per_path(db.books, i, place_of_path(db.books, path));
}

/// A book that was put in is there, besides those that were there before.
proof fn book_added(db: DatabaseView, path: Seq<char>, meta: MetaView, chapter_count: usize, multi: bool, now: i64)
    requires
        db.valid(),
        db.can_put_book(path),
        !has_path(db.books, path),
    ensures
        ({
            let after = db.put_book(path, meta, chapter_count, multi, now);
            &&& after.valid()
            &&& forall|q: Seq<char>| #[trigger] has_path(after.books, q) == (has_path(db.books, q) || q == path)
            &&& forall|q: Seq<char>| #[trigger] has_single(after, q) == (has_single(db, q) || q == path && !multi)
        }),
{
    let after = db.put_book(path, meta, chapter_count, multi, now);
    let n = db.books.len() as int;
    put_book_keeps_valid(db, path, meta, chapter_count, multi, now);
    book_found(after, n);
    assert forall|q: Seq<char>| #[trigger] has_path(after.books, q) == (has_path(db.books, q) || q == path) by {
        if has_path(db.books, q) {
            assert(after.books[place_of_path(db.books, q)].book.path == q);
        }
        if has_path(after.books, q) && q != path {
            assert(db.books[place_of_path(after.books, q)].book.path == q);
        }
    }
    assert forall|q: Seq<char>| #[trigger] has_single(after, q) == (has_single(db, q) || q == path && !multi) by {
        if has_path(db.books, q) {
            let k = place_of_path(db.books, q);
            assert(after.books[k] == db.books[k]);
            book_found(after, k);
        } else {
            assert(has_path(after.books, q) == (q == path));
        }
    }
}

/// A single-file book that was removed is gone, and no other book.
proof fn single_removed(db: DatabaseView, path: Seq<char>)
    requires
        db.valid(),
    ensures
        ({
            let after = db.without_single(path);
            &&& after.valid()
            &&& forall|q: Seq<char>| #[trigger]
                has_path(after.books, q) == (has_path(db.books, q) && !(q == path && has_single(db, q)))
            &&& forall|q: Seq<char>| #[trigger] has_single(after, q) == (has_single(db, q) && q != path)
            &&& forall|i: int| 0 <= i < after.books.len() ==> db.books.contains(#[trigger] after.books[i])
        }),
{
    let after = db.without_single(path);
    if has_single(db, path) {
        let at = place_of_path(db.books, path);
        let id = db.books[at].book.id;
        let p = |r: BookRowView| r.book.id != id;
        without_book_keeps_valid(db, id);
        filter_from(db.books, p);
        assert forall|q: Seq<char>| #[trigger] has_path(after.books, q) == (has_path(db.books, q) && q != path) by {
            path_kept(db, at, q);
        }
        assert forall|q: Seq<char>| #[trigger] has_single(after, q) == (has_single(db, q) && q != path) by {
            path_kept(db, at, q);
        }
    } else {
        assert(after == db);
    }
}

proof fn path_kept(db: DatabaseView, at: int, q: Seq<char>)
    requires
        db.valid(),
        0 <= at < db.books.len(),
    ensures
        ({
            let after = db.without_book(db.books[at].book.id);
            &&& has_path(after.books, q) == (has_path(db.books, q) && q != db.books[at].book.path)
            &&& has_single(after, q) == (has_single(db, q) && q != db.books[at].book.path)
        }),
{
    let id = db.books[at].book.id;
    let p = |r: BookRowView| r.book.id != id;
    let after = db.without_book(id);
    without_book_keeps_valid(db, id);
    filter_from(db.books, p);
    if has_path(after.books, q) {
        let k = place_of_path(after.books, q);
        assert(db.books.contains(after.books[k]));
        let i = choose|i: int| 0 <= i < db.books.len() && db.books[i] == after.books[k];
        book_found(db, i);
        book_found(after, k);
        if q == db.books[at].book.path {
            one_book_per_path(db.books, i, at);
            assert(p(after.books[k]));
        }
    }
    if has_path(db.books, q) && q != db.books[at].book.path {
        let i = place_of_path(db.books, q);
        if db.books[i].book.id == id {
            one_book_per_id(db.books, i, at);
        }
        assert(db.books.contains(db.books[i]));
        assert(after.books.contains(db.books[i]));
        let k = choose|k: int| 0 <= k < after.books.len() && after.books[k] == db.books[i];
        book_found(after, k);
    }
}

/// The single-file books that were removed are gone, and no other book.
pub proof fn singles_removed(db: DatabaseView, parts: Seq<Seq<char>>)
    requires
        db.valid(),
    ensures
        ({
            let after = without_singles(db, parts);
            &&& after.valid()
            &&& forall|q: Seq<char>| #[trigger]
                has_path(after.books, q) == (has_path(db.books, q) && !(parts.contains(q) && has_single(db, q)))
            &&& forall|q: Seq<char>| #[trigger] has_single(after, q) == (has_single(db, q) && !parts.contains(q))
            &&& forall|i: int| 0 <= i < after.books.len() ==> db.books.contains(#[trigger] after.books[i])
        }),
    decreases parts.len(),
{
    if parts.len() > 0 {
        let few = parts.drop_last();
        let x = parts.last();
        let before = without_singles(db, few);
        let after = without_singles(db, parts);
        singles_removed(db, few);
        single_removed(before, x);
        assert forall|q: Seq<char>| #[trigger] parts.contains(q) == (few.contains(q) || q == x) by {
            if few.contains(q) {
                let k = choose|k: int| 0 <= k < few.len() && few[k] == q;
                assert(parts[k] == q);
            }
            if parts.contains(q) && q != x {
                let k = choose|k: int| 0 <= k < parts.len() && parts[k] == q;
                assert(few[k] == q);
            }
            if q == x {
                assert(parts[parts.len() - 1] == q);
            }
        }
        assert forall|q: Seq<char>| #[trigger] has_path(after.books, q) == (has_path(db.books, q) && !(parts.contains(q)
            && has_single(db, q))) by {
            assert(has_path(before.books, q) == (has_path(db.books, q) && !(few.contains(q) && has_single(db, q))));
            assert(has_single(before, q) == (has_single(db, q) && !few.contains(q)));
        }
        assert forall|q: Seq<char>| #[trigger] has_single(after, q) == (has_single(db, q) && !parts.contains(q)) by {
            assert(has_single(before, q) == (has_single(db, q) && !few.contains(q)));
        }
        assert forall|i: int| 0 <= i < after.books.len() implies db.books.contains(#[trigger] after.books[i]) by {
            assert(before.books.contains(after.books[i]));
        }
    }
}

/// A book stays if and only if it is a multi-file book or is not at one of the
/// paths.
pub proof fn rows_after_removal(db: DatabaseView, parts: Seq<Seq<char>>, row: BookRowView)
    requires
        db.valid(),
    ensures
        without_singles(db, parts).books.contains(row) == (db.books.contains(row) && (row.book.is_multi || !parts.contains(
            row.book.path,
        ))),
    decreases parts.len(),
{
    if parts.len() > 0 {
        let few = parts.drop_last();
        let x = parts.last();
        let before = without_singles(db, few);
        let after = without_singles(db, parts);
        rows_after_removal(db, few, row);
        singles_removed(db, few);
        assert(parts.contains(row.book.path) == (few.contains(row.book.path) || row.book.path == x)) by {
            assert(few.push(x) =~= parts);
            if few.contains(row.book.path) {
                let k = choose|k: int| 0 <= k < few.len() && few[k] == row.book.path;
                assert(parts[k] == row.book.path);
            }
            if row.book.path == x {
                assert(parts[parts.len() - 1] == x);
            }
            if parts.contains(row.book.path) && row.book.path != x {
                let k = choose|k: int| 0 <= k < parts.len() && parts[k] == row.book.path;
                assert(few[k] == row.book.path);
            }
        }
        if has_single(before, x) {
            let at = place_of_path(before.books, x);
            let id = before.books[at].book.id;
            let p = |r: BookRowView| r.book.id != id;
            filter_from(before.books, p);
            if before.books.contains(row) {
                let k = choose|k: int| 0 <= k < before.books.len() && before.books[k] == row;
                if row.book.path == x {
                    one_book_per_path(before.books, k, at);
                }
                if row.book.id == id {
                    one_book_per_id(before.books, k, at);
                }
            }
            if after.books.contains(row) {
                let k = choose|k: int| 0 <= k < after.books.len() && after.books[k] == row;
                assert(before.books.contains(after.books[k]) && p(after.books[k]));
            }
        } else if before.books.contains(row) && row.book.path == x {
            let k = choose|k: int| 0 <= k < before.books.len() && before.books[k] == row;
            book_found(before, k);
        }
    }
}

/// Removing single-file books touches no history, setting or location.
pub proof fn removal_spares_the_rest(db: DatabaseView, parts: Seq<Seq<char>>)
    ensures
        without_singles(db, parts).history == db.history,
        without_singles(db, parts).settings == db.settings,
        without_singles(db, parts).locations == db.locations,
    decreases parts.len(),
{
    if parts.len() > 0 {
        removal_spares_the_rest(db, parts.drop_last());
    }
}

proof fn nothing_to_remove(db: DatabaseView, parts: Seq<Seq<char>>)
    requires
        forall|i: int| 0 <= i < parts.len() ==> !has_single(db, #[trigger] parts[i]),
    ensures
        without_singles(db, parts) == db,
    decreases parts.len(),
{
    if parts.len() > 0 {
        let few = parts.drop_last();
        assert forall|i: int| 0 <= i < few.len() implies !has_single(db, #[trigger] few[i]) by {
            assert(!has_single(db, parts[i]));
        }
        nothing_to_remove(db, few);
        assert(!has_single(db, parts[parts.len() - 1]));
    }
}

// ---- what a step leaves done -----------------------------------------------

/// Where the book of a step is.
pub open spec fn target(step: StepView) -> Seq<char> {
    match step {
        StepView::Single(path) => path,
        StepView::Multi { dir, .. } => dir,
    }
}

/// The files that a step makes parts of a book.
pub open spec fn members(step: StepView) -> Seq<Seq<char>> {
    match step {
        StepView::Single(_) => Seq::empty(),
        StepView::Multi { parts, .. } => parts,
    }
}

/// Whether two steps leave each other alone: neither makes the other's book a
/// part of one, and they make no two books at one path.
spec fn apart(a: StepView, b: StepView) -> bool {
    &&& target(a) == target(b) ==> a == b
    &&& !members(a).contains(target(b))
    &&& !members(b).contains(target(a))
}

/// Whether the book of a step is in the library.
spec fn present(db: DatabaseView, step: StepView) -> bool {
    has_path(db.books, target(step))
}

/// Whether a step has nothing to remove.
spec fn clean(db: DatabaseView, step: StepView) -> bool {
    forall|q: Seq<char>| #[trigger] members(step).contains(q) ==> !has_single(db, q)
}

impl Shelf {
    /// What is reported of a step whose book cannot be read.
    spec fn failures(self, step: StepView) -> Seq<(Seq<char>, Seq<char>)> {
        match step {
            StepView::Single(path) => seq![(path, (self.read)(path)->Err_0)],
            StepView::Multi { parts, .. } => unreadable(self.parts(parts)),
        }
    }

    /// Whether there is a book to be read for a step.
    spec fn readable(self, step: StepView) -> bool {
        match step {
            StepView::Single(path) => (self.read)(path) is Ok,
            StepView::Multi { parts, .. } => track_list(self.parts(parts)).len() > 0,
        }
    }

    /// What a step does: its parts are no books of their own any more; its book
    /// is there afterwards if it was there or can be read, and is counted then;
    /// else the failures are reported.
    proof fn step_done(self, step: StepView, db: DatabaseView, report: ReportView, now: i64, n: int)
        requires
            db.valid(),
            has_ids(db, n + 1),
            n >= 0,
            apart(step, step),
        ensures
            ({
                let (after, told) = self.imported(step, db, report, now);
                &&& after.valid()
                &&& has_ids(after, n)
                &&& forall|q: Seq<char>| #[trigger]
                    has_path(after.books, q) == (has_path(db.books, q) && !(members(step).contains(q) && has_single(db, q))
                        || q == target(step) && self.readable(step))
                &&& forall|q: Seq<char>| #[trigger]
                    has_single(after, q) ==> has_single(db, q) && !members(step).contains(q) || step == StepView::Single(q)
                &&& present(after, step) ==> told.imported + told.skipped_existing == report.imported
                    + report.skipped_existing + 1
                &&& !present(after, step) ==> told.imported + told.skipped_existing == report.imported
                    + report.skipped_existing
                &&& report.failed.is_prefix_of(told.failed)
                &&& !present(after, step) ==> told.failed == report.failed + self.failures(step)
            }),
    {
        let (after, told) = self.imported(step, db, report, now);
        match step {
            StepView::Single(path) => {
                if !has_path(db.books, path) {
                    match (self.read)(path) {
                        Ok(meta) => {
                            assert(db.can_put_book(path));
                            book_added(db, path, meta, meta.chapters.len() as usize, false, now);
                            assert(after.books.last().book.id == db.id_for_path(path));
                        },
                        Err(reason) => {
                            assert(report.failed.push((path, reason)) =~= report.failed + self.failures(step));
                        },
                    }
                }
            },
            StepView::Multi { dir, parts } => {
                let ps = self.parts(parts);
                assert(part_paths(ps) =~= parts);
                singles_removed(db, parts);
                let few = without_singles(db, parts);
                assert(has_ids(few, n + 1)) by {
                    assert forall|i: int| 0 <= i < few.books.len() implies (#[trigger] few.books[i]).book.id + n + 1
                        <= i64::MAX by {
                        assert(db.books.contains(few.books[i]));
                    }
                }
                assert(has_path(few.books, dir) == has_path(db.books, dir));
                if !has_path(few.books, dir) && track_list(ps).len() > 0 {
                    let meta = folder_meta(dir, self.header(parts), (self.cover)(dir), total_length(ps));
                    let tracks = track_list(ps);
                    assert(few.can_put_book(dir));
                    book_added(few, dir, meta, tracks.len() as usize, true, now);
                    put_multi_book_keeps_valid(few, dir, meta, tracks, now);
                    let put = few.put_book(dir, meta, tracks.len() as usize, true, now);
                    assert(after.books == put.books);
                    assert forall|q: Seq<char>| #[trigger] has_single(after, q) == has_single(put, q) by {}
                    assert(after.books.last().book.id == few.id_for_path(dir));
                }
            },
        }
    }
}

// ---- the steps of a plan ---------------------------------------------------

/// The steps for one folder.
spec fn steps_for(found: Seq<FoundView>, dir: Seq<char>) -> Seq<StepView> {
    folder_steps(dir, sorted_paths(found_in(found, dir)))
}

/// Every step of a plan is for one of its folders.
proof fn step_has_folder(dirs: Seq<Seq<char>>, found: Seq<FoundView>, i: int) -> (dir: Seq<char>)
    requires
        0 <= i < steps_in(dirs, found).len(),
    ensures
        steps_for(found, dir).contains(steps_in(dirs, found)[i]),
    decreases dirs.len(),
{
    let few = steps_in(dirs.drop_last(), found);
    if i < few.len() {
        step_has_folder(dirs.drop_last(), found, i)
    } else {
        let here = steps_for(found, dirs.last());
        assert(here[i - few.len()] == steps_in(dirs, found)[i]);
        dirs.last()
    }
}

/// A file of a folder, in order, was found there.
proof fn file_was_found(found: Seq<FoundView>, dir: Seq<char>, path: Seq<char>) -> (i: int)
    requires
        sorted_paths(found_in(found, dir)).contains(path),
    ensures
        0 <= i < audio_files(found).len(),
        audio_files(found)[i].dir == dir,
        audio_files(found)[i].path == path,
{
    broadcast use vstd::seq_lib::group_to_multiset_ensures;

    let audio = audio_files(found);
    let q = |f: FoundView| f.dir == dir;
    let here = audio.filter(q);
    let files = found_in(found, dir);
    paths::path_order_is_total();
    files.lemma_sort_by_ensures(paths::path_order());
    assert(sorted_paths(files).to_multiset().count(path) > 0);
    assert(files.contains(path));
    let k = choose|k: int| 0 <= k < files.len() && files[k] == path;
    filter_from(audio, q);
    assert(audio.contains(here[k]));
    choose|i: int| 0 <= i < audio.len() && audio[i] == here[k]
}

/// A step for a folder is a file of it, one that stands alone or with none to be
/// its other parts, or the folder with all the others.
proof fn step_of_folder(dir: Seq<char>, files: Seq<Seq<char>>, step: StepView)
    requires
        folder_steps(dir, files).contains(step),
    ensures
        ({
            let parts = files.filter(|p: Seq<char>| !standalone_path(p));
            match step {
                StepView::Single(path) => files.contains(path) && (standalone_path(path) || parts.len() < 2),
                StepView::Multi { dir: d, parts: ps } => {
                    &&& d == dir
                    &&& ps == parts
                    &&& parts.len() >= 2
                    &&& forall|q: Seq<char>| #[trigger] ps.contains(q) ==> files.contains(q) && !standalone_path(q)
                },
            }
        }),
{
    let p = |p: Seq<char>| standalone_path(p);
    let q = |p: Seq<char>| !standalone_path(p);
    let alone = files.filter(p);
    let parts = files.filter(q);
    filter_from(files, p);
    filter_from(files, q);
    let all = folder_steps(dir, files);
    let i = choose|i: int| 0 <= i < all.len() && all[i] == step;
    if i < alone.len() {
        assert(step == StepView::Single(alone[i]));
        assert(files.contains(alone[i]) && p(alone[i]));
    } else if parts.len() >= 2 {
        assert(step == StepView::Multi { dir, parts });
        assert forall|x: Seq<char>| #[trigger] parts.contains(x) implies files.contains(x) && !standalone_path(x) by {
            let k = choose|k: int| 0 <= k < parts.len() && parts[k] == x;
            assert(files.contains(parts[k]) && q(parts[k]));
        }
    } else {
        let k = i - alone.len();
        assert(step == StepView::Single(parts[k]));
        assert(files.contains(parts[k]));
    }
}

/// The steps of a plan leave each other alone.
proof fn steps_apart(found: Seq<FoundView>, i: int, j: int)
    requires
        is_tree(audio_files(found)),
        0 <= i < import_plan(found).len(),
        0 <= j < import_plan(found).len(),
    ensures
        apart(import_plan(found)[i], import_plan(found)[j]),
{
    let a = import_plan(found)[i];
    let b = import_plan(found)[j];
    let da = step_has_folder(folders(found), found, i);
    let db = step_has_folder(folders(found), found, j);
    step_of_folder(da, sorted_paths(found_in(found, da)), a);
    step_of_folder(db, sorted_paths(found_in(found, db)), b);
    member_is_apart(found, da, a, db, b);
    member_is_apart(found, db, b, da, a);
    if target(a) == target(b) && a != b {
        match a {
            StepView::Single(p) => {
                let x = file_was_found(found, da, p);
                assert(b->parts.contains(b->parts[0]));
                let y = file_was_found(found, db, b->parts[0]);
            },
            StepView::Multi { dir, parts } => {
                assert(parts.contains(parts[0]));
                let x = file_was_found(found, da, parts[0]);
                if b is Single {
                    let y = file_was_found(found, db, b->Single_0);
                }
            },
        }
    }
}

/// No step makes another's book a part of one.
proof fn member_is_apart(found: Seq<FoundView>, da: Seq<char>, a: StepView, db: Seq<char>, b: StepView)
    requires
        is_tree(audio_files(found)),
        steps_for(found, da).contains(a),
        steps_for(found, db).contains(b),
    ensures
        !members(a).contains(target(b)),
{
    step_of_folder(da, sorted_paths(found_in(found, da)), a);
    step_of_folder(db, sorted_paths(found_in(found, db)), b);
    if members(a).contains(target(b)) {
        let x = file_was_found(found, da, target(b));
        match b {
            StepView::Single(p) => {
                let y = file_was_found(found, db, p);
                assert(da == db);
            },
            StepView::Multi { dir, parts } => {
                assert(parts.contains(parts[0]));
                let y = file_was_found(found, db, parts[0]);
            },
        }
    }
}

// ---- two scans -------------------------------------------------------------

/// How many of the steps have their book in the library.
spec fn count_present(db: DatabaseView, steps: Seq<StepView>) -> int
    decreases steps.len(),
{
    if steps.len() == 0 {
        0
    } else {
        count_present(db, steps.drop_last()) + if present(db, steps.last()) {
            1int
        } else {
            0
        }
    }
}

proof fn counts_agree(a: DatabaseView, b: DatabaseView, steps: Seq<StepView>)
    requires
        forall|i: int| 0 <= i < steps.len() ==> present(a, #[trigger] steps[i]) == present(b, steps[i]),
    ensures
        count_present(a, steps) == count_present(b, steps),
    decreases steps.len(),
{
    if steps.len() > 0 {
        let few = steps.drop_last();
        assert forall|i: int| 0 <= i < few.len() implies present(a, #[trigger] few[i]) == present(b, few[i]) by {
            assert(few[i] == steps[i]);
        }
        counts_agree(a, b, few);
        assert(steps[steps.len() - 1] == steps.last());
    }
}

spec fn all_apart(steps: Seq<StepView>) -> bool {
    forall|i: int, j: int| 0 <= i < steps.len() && 0 <= j < steps.len() ==> apart(#[trigger] steps[i], #[trigger] steps[j])
}

impl Shelf {
    /// Whether a step has nothing left to do: its book is there or cannot be
    /// read, and none of its parts is a book of its own.
    spec fn done(self, db: DatabaseView, step: StepView) -> bool {
        &&& present(db, step) || !self.readable(step)
        &&& clean(db, step)
    }

    /// Whether a report accounts for a step: its book is there, or its failures
    /// are told.
    spec fn told(self, db: DatabaseView, report: ReportView, step: StepView) -> bool {
        present(db, step) || forall|x: (Seq<char>, Seq<char>)| #[trigger]
            self.failures(step).contains(x) ==> report.failed.contains(x)
    }

    /// A step with nothing left to do changes nothing.
    proof fn done_step(self, step: StepView, db: DatabaseView, report: ReportView, now: i64)
        requires
            self.done(db, step),
        ensures
            self.imported(step, db, report, now) == (
                db,
                if present(db, step) {
                    report.with_skipped()
                } else {
                    ReportView { failed: report.failed + self.failures(step), ..report }
                },
            ),
    {
        match step {
            StepView::Single(path) => {
                assert(report.failed.push((path, (self.read)(path)->Err_0)) =~= report.failed + self.failures(step));
            },
            StepView::Multi { dir, parts } => {
                assert(part_paths(self.parts(parts)) =~= parts);
                assert forall|i: int| 0 <= i < parts.len() implies !has_single(db, #[trigger] parts[i]) by {
                    assert(members(step).contains(parts[i]));
                }
                nothing_to_remove(db, parts);
            },
        }
    }

    /// After a scan nothing is left to do, and every step is accounted for.
    proof fn scan_is_done(self, steps: Seq<StepView>, db: DatabaseView, times: Seq<i64>, n: int)
        requires
            db.valid(),
            n >= 0,
            has_ids(db, n + steps.len()),
            all_apart(steps),
        ensures
            ({
                let (after, report) = self.scanned(steps, db, times);
                &&& after.valid()
                &&& has_ids(after, n)
                &&& forall|i: int| 0 <= i < steps.len() ==> self.done(after, #[trigger] steps[i])
                &&& forall|i: int| 0 <= i < steps.len() ==> self.told(after, report, #[trigger] steps[i])
                &&& report.imported + report.skipped_existing == count_present(after, steps)
            }),
        decreases steps.len(),
    {
        if steps.len() > 0 {
            let few = steps.drop_last();
            let step = steps.last();
            let (before, report) = self.scanned(few, db, times);
            let (after, told) = self.scanned(steps, db, times);
            assert(all_apart(few)) by {
                assert forall|i: int, j: int| 0 <= i < few.len() && 0 <= j < few.len() implies apart(
                    #[trigger] few[i],
                    #[trigger] few[j],
                ) by {
                    assert(few[i] == steps[i] && few[j] == steps[j]);
                }
            }
            self.scan_is_done(few, db, times, n + 1);
            assert(apart(steps[steps.len() - 1], steps[steps.len() - 1]));
            self.step_done(step, before, report, times[steps.len() - 1], n);
            assert forall|i: int| 0 <= i < steps.len() implies self.done(after, #[trigger] steps[i]) && self.told(
                after,
                told,
                steps[i],
            ) && (i < few.len() ==> present(after, steps[i]) == present(before, steps[i])) by {
                if i < few.len() {
                    let other = few[i];
                    assert(other == steps[i]);
                    assert(apart(steps[i], steps[steps.len() - 1]));
                    assert(self.done(before, other) && self.told(before, report, other));
                    assert(present(after, other) == present(before, other));
                    assert forall|q: Seq<char>| #[trigger] members(other).contains(q) implies !has_single(after, q) by {
                        assert(!has_single(before, q));
                    }
                    if !present(after, other) {
                        assert forall|x: (Seq<char>, Seq<char>)| #[trigger]
                            self.failures(other).contains(x) implies told.failed.contains(x) by {
                            assert(report.failed.contains(x));
                            let k = choose|k: int| 0 <= k < report.failed.len() && report.failed[k] == x;
                            assert(told.failed[k] == x);
                        }
                    }
                } else {
                    assert forall|q: Seq<char>| #[trigger] members(step).contains(q) implies !has_single(after, q) by {
                    }
                    if !present(after, step) {
                        assert forall|x: (Seq<char>, Seq<char>)| #[trigger]
                            self.failures(step).contains(x) implies told.failed.contains(x) by {
                            let k = choose|k: int|
                                0 <= k < self.failures(step).len() && self.failures(step)[k] == x;
                            assert(told.failed[report.failed.len() + k] == x);
                        }
                    }
                }
            }
            assert forall|i: int| 0 <= i < few.len() implies present(after, #[trigger] few[i]) == present(
                before,
                few[i],
            ) by {
                assert(few[i] == steps[i]);
            }
            counts_agree(after, before, few);
        }
    }

    /// A scan with nothing left to do changes nothing.
    proof fn scan_changes_nothing(self, steps: Seq<StepView>, db: DatabaseView, times: Seq<i64>)
        requires
            db.valid(),
            forall|i: int| 0 <= i < steps.len() ==> self.done(db, #[trigger] steps[i]),
            all_apart(steps),
        ensures
            ({
                let (after, report) = self.scanned(steps, db, times);
                &&& after == db
                &&& report.imported == 0
                &&& report.skipped_existing == count_present(db, steps)
                &&& forall|x: (Seq<char>, Seq<char>)| #[trigger]
                    report.failed.contains(x) ==> exists|i: int|
                        0 <= i < steps.len() && !present(db, #[trigger] steps[i]) && self.failures(steps[i]).contains(x)
            }),
        decreases steps.len(),
    {
        if steps.len() > 0 {
            let few = steps.drop_last();
            let step = steps.last();
            let (before, report) = self.scanned(few, db, times);
            let (after, told) = self.scanned(steps, db, times);
            assert forall|i: int, j: int| 0 <= i < few.len() && 0 <= j < few.len() implies apart(
                #[trigger] few[i],
                #[trigger] few[j],
            ) by {
                assert(few[i] == steps[i] && few[j] == steps[j]);
            }
            assert forall|i: int| 0 <= i < few.len() implies self.done(db, #[trigger] few[i]) by {
                assert(few[i] == steps[i]);
            }
            self.scan_changes_nothing(few, db, times);
            assert(self.done(db, steps[steps.len() - 1]));
            self.done_step(step, db, report, times[steps.len() - 1]);
            assert forall|x: (Seq<char>, Seq<char>)| #[trigger] told.failed.contains(x) implies exists|i: int|
                0 <= i < steps.len() && !present(db, #[trigger] steps[i]) && self.failures(steps[i]).contains(x) by {
                if report.failed.contains(x) {
                    let i = choose|i: int|
                        0 <= i < few.len() && !present(db, #[trigger] few[i]) && self.failures(few[i]).contains(x);
                    assert(few[i] == steps[i]);
                } else {
                    let k = choose|k: int| 0 <= k < told.failed.len() && told.failed[k] == x;
                    if k < report.failed.len() {
                        assert(report.failed[k] == x);
                    }
                    assert(self.failures(step)[k - report.failed.len()] == x);
                    assert(steps[steps.len() - 1] == step);
                }
            }
        }
    }
}

/// A storage location that is scanned again, unchanged, is left as it is: the
/// second scan imports nothing, skips every book that the first one imported or
/// skipped, tells no failure that the first one did not tell, and changes nothing
/// in the library.
pub proof fn second_scan_changes_nothing(
    shelf: Shelf,
    found: Seq<FoundView>,
    db: DatabaseView,
    first: Seq<i64>,
    second: Seq<i64>,
)
    requires
        db.valid(),
        is_tree(audio_files(found)),
        has_ids(db, import_plan(found).len() as int),
    ensures
        ({
            let (after, told) = shelf.scanned(import_plan(found), db, first);
            let (later, retold) = shelf.scanned(import_plan(found), after, second);
            &&& later == after
            &&& retold.imported == 0
            &&& retold.skipped_existing == told.imported + told.skipped_existing
            &&& forall|x: (Seq<char>, Seq<char>)| #[trigger] retold.failed.contains(x) ==> told.failed.contains(x)
        }),
{
    let steps = import_plan(found);
    let (after, told) = shelf.scanned(steps, db, first);
    let (later, retold) = shelf.scanned(steps, after, second);
    assert forall|i: int, j: int| 0 <= i < steps.len() && 0 <= j < steps.len() implies apart(
        #[trigger] steps[i],
        #[trigger] steps[j],
    ) by {
        steps_apart(found, i, j);
    }
    shelf.scan_is_done(steps, db, first, 0);
    shelf.scan_changes_nothing(steps, after, second);
    assert forall|x: (Seq<char>, Seq<char>)| #[trigger] retold.failed.contains(x) implies told.failed.contains(x) by {
        let i = choose|i: int|
            0 <= i < steps.len() && !present(after, #[trigger] steps[i]) && shelf.failures(steps[i]).contains(x);
        assert(shelf.told(after, told, steps[i]));
    }
}

} // verus!
