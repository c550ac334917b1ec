//! Importing a storage location.
//!
//! Audio files are grouped by folder: a folder of loose audio files is one
//! multi-file book, other files are books of their own. Files that cannot be
//! imported are collected with the *reason* they failed.

use vstd::prelude::*;

use crate::library::db::{book_put, Database, DbError};
use crate::library::meta::is_blank;
use crate::library::tables::{
    distinct_tracks, filter_all, filter_from, filter_step, has_path, DatabaseView,
};
use crate::library::{
    copy_cover, copy_text, cover_of, view_of, views, BookMeta, Chapter, Cover, CoverView, MetaView, Track, TrackView,
};
use crate::order::{is_listing, key_less, listed_again, listed_new, listing, listing_exists, listing_is, KeyView};
use crate::paths;
use crate::paths::{extension_of, name_of, path_leq, ranks, sorted_paths};
use crate::text;
use crate::text::{ascii_lowered, decimal, trimmed};
use crate::time::{Duration, MAX_NANOS};

verus! {

broadcast use crate::library::db::group_records;

/// A folder needs at least this many audio files to be treated as one
/// multi-file book (fewer, and each file is imported on its own).
pub const MIN_MULTI_FILES: usize = 2;

/// Whether an extension, in lower case, is one that we import.
pub open spec fn is_audio_ext(ext: Seq<char>) -> bool {
    ||| ext == "m4b"@
    ||| ext == "m4a"@
    ||| ext == "mp4"@
    ||| ext == "mp3"@
    ||| ext == "flac"@
    ||| ext == "ogg"@
    ||| ext == "oga"@
    ||| ext == "wav"@
}

/// Whether an extension, in lower case, is always that of a book of its own (it
/// carries internal chapters), never grouped into a multi-file book.
pub open spec fn is_standalone_ext(ext: Seq<char>) -> bool {
    ext == "m4b"@ || ext == "mp4"@
}

/// Whether the file at a path is one that we import.
pub open spec fn audiobook_path(path: Seq<char>) -> bool {
    match extension_of(path) {
        Some(e) => is_audio_ext(ascii_lowered(e)),
        None => false,
    }
}

/// Whether the file at a path is always a book of its own.
pub open spec fn standalone_path(path: Seq<char>) -> bool {
    match extension_of(path) {
        Some(e) => is_standalone_ext(ascii_lowered(e)),
        None => false,
    }
}

/// Whether the file at a path is one that we import.
pub fn is_audiobook(path: &str) -> (r: bool)
    ensures
        r == audiobook_path(path@),
{
    match paths::ext_of(path) {
        Some(e) => {
            let e = e.as_str();
            text::same(e, "m4b") || text::same(e, "m4a") || text::same(e, "mp4") || text::same(e, "mp3") || text::same(
                e,
                "flac",
            ) || text::same(e, "ogg") || text::same(e, "oga") || text::same(e, "wav")
        },
        None => false,
    }
}

/// Whether the file at a path is always a book of its own.
pub fn is_standalone(path: &str) -> (r: bool)
    ensures
        r == standalone_path(path@),
{
    match paths::ext_of(path) {
        Some(e) => text::same(e.as_str(), "m4b") || text::same(e.as_str(), "mp4"),
        None => false,
    }
}

// ---- the report ------------------------------------------------------------

/// Outcome of importing a storage location.
#[derive(Debug)]
pub struct ImportReport {
    /// Newly imported (or refreshed) books.
    pub imported: usize,
    /// Files already present in the library, left untouched.
    pub skipped_existing: usize,
    /// Files that looked like audiobooks but could not be read, with the reason.
    pub failed: Vec<(String, String)>,
}

/// What an [`ImportReport`] holds.
#[verifier::ext_equal]
pub struct ReportView {
    pub imported: int,
    pub skipped_existing: int,
    pub failed: Seq<(Seq<char>, Seq<char>)>,
}

impl View for ImportReport {
    type V = ReportView;

    open spec fn view(&self) -> ReportView {
        ReportView {
            imported: self.imported as int,
            skipped_existing: self.skipped_existing as int,
            failed: views(self.failed@),
        }
    }
}

impl Default for ImportReport {
    fn default() -> (r: ImportReport)
        ensures
            r@ == ReportView::empty(),
    {
        let r = ImportReport { imported: 0, skipped_existing: 0, failed: Vec::new() };
        assert(r@ =~= ReportView::empty());
        r
    }
}

impl ReportView {
    /// A report of nothing.
    pub open spec fn empty() -> ReportView {
        ReportView { imported: 0, skipped_existing: 0, failed: Seq::empty() }
    }

    /// The report with one more book imported.
    pub open spec fn with_imported(self) -> ReportView {
        ReportView { imported: self.imported + 1, ..self }
    }

    /// The report with one more book that was there already.
    pub open spec fn with_skipped(self) -> ReportView {
        ReportView { skipped_existing: self.skipped_existing + 1, ..self }
    }

    /// The report with one more failure.
    pub open spec fn with_failed(self, path: Seq<char>, reason: Seq<char>) -> ReportView {
        ReportView { failed: self.failed.push((path, reason)), ..self }
    }

    /// Whether one more book can be counted.
    pub open spec fn has_room(self) -> bool {
        self.imported < usize::MAX && self.skipped_existing < usize::MAX
    }

    /// The report in words: what was imported, and the rest where there is any.
    pub open spec fn summary(self) -> Seq<char> {
        decimal(self.imported as nat) + " imported"@ + (if self.skipped_existing > 0 {
            ", "@ + decimal(self.skipped_existing as nat) + " already in library"@
        } else {
            Seq::empty()
        }) + (if self.failed.len() > 0 {
            ", "@ + decimal(self.failed.len()) + " failed"@
        } else {
            Seq::empty()
        })
    }
}

impl ImportReport {
    /// The report in words.
    pub fn summary(&self) -> (r: String)
        ensures
            r@ == self@.summary(),
    {
        let mut s = text::decimal_string(self.imported as u64);
        s.append(" imported");
        let ghost first = s@;
        if self.skipped_existing > 0 {
            s.append(", ");
            text::push_decimal(&mut s, self.skipped_existing as u64);
            s.append(" already in library");
            assert(s@ =~= first + (", "@ + decimal(self.skipped_existing as nat) + " already in library"@));
        }
        let ghost second = s@;
        if self.failed.len() > 0 {
            s.append(", ");
            text::push_decimal(&mut s, self.failed.len() as u64);
            s.append(" failed");
            assert(s@ =~= second + (", "@ + decimal(self.failed.len() as nat) + " failed"@));
        }
        assert(s@ =~= self@.summary());
        s
    }

    fn fail(&mut self, path: &str, reason: String)
        ensures
            final(self)@ == old(self)@.with_failed(path@, reason@),
    {
        let ghost before = self@;
        let entry = (path.to_owned(), reason);
        self.failed.push(entry);
        assert(views(self.failed@) =~= before.failed.push((path@, reason@)));
    }
}

// ---- what is to be imported ------------------------------------------------

/// A file that was found under a storage root, and the folder that holds it.
#[derive(Debug)]
pub struct FoundFile {
    pub dir: String,
    pub path: String,
}

/// What a [`FoundFile`] holds.
#[verifier::ext_equal]
pub struct FoundView {
    pub dir: Seq<char>,
    pub path: Seq<char>,
}

impl View for FoundFile {
    type V = FoundView;

    open spec fn view(&self) -> FoundView {
        FoundView { dir: self.dir@, path: self.path@ }
    }
}

/// One book to import.
#[derive(Debug)]
pub enum Step {
    /// A file that is a book of its own.
    Single(String),
    /// A folder of loose audio files.
    Multi { dir: String, parts: Vec<String> },
}

/// What a [`Step`] holds.
#[verifier::ext_equal]
pub enum StepView {
    Single(Seq<char>),
    Multi { dir: Seq<char>, parts: Seq<Seq<char>> },
}

impl View for Step {
    type V = StepView;

    open spec fn view(&self) -> StepView {
        match self {
            Step::Single(p) => StepView::Single(p@),
            Step::Multi { dir, parts } => StepView::Multi { dir: dir@, parts: views(parts@) },
        }
    }
}

/// Those of the files found that are audiobooks.
pub open spec fn audio_files(found: Seq<FoundView>) -> Seq<FoundView> {
    found.filter(|f: FoundView| audiobook_path(f.path))
}

/// What folders are ordered by.
pub open spec fn folder_key(dir: Seq<char>) -> KeyView {
    KeyView { first: ranks(dir), second: Seq::empty(), last: 0 }
}

/// The folders that hold audiobooks, each once, in the order of paths.
pub open spec fn folders(found: Seq<FoundView>) -> Seq<Seq<char>> {
    listing(audio_files(found).map_values(|f: FoundView| f.dir), |d: Seq<char>| folder_key(d))
}

/// The audiobooks in a folder, as they were found.
pub open spec fn found_in(found: Seq<FoundView>, dir: Seq<char>) -> Seq<Seq<char>> {
    audio_files(found).filter(|f: FoundView| f.dir == dir).map_values(|f: FoundView| f.path)
}

/// Each file as a book of its own.
pub open spec fn singles(files: Seq<Seq<char>>) -> Seq<StepView> {
    files.map_values(|p: Seq<char>| StepView::Single(p))
}

/// What is imported from a folder with these files: those that stand alone
/// first, and then the loose files, as one book where there are enough of them.
pub open spec fn folder_steps(dir: Seq<char>, files: Seq<Seq<char>>) -> Seq<StepView> {
    let alone = files.filter(|p: Seq<char>| standalone_path(p));
    let parts = files.filter(|p: Seq<char>| !standalone_path(p));
    singles(alone) + if parts.len() >= MIN_MULTI_FILES {
        seq![StepView::Multi { dir, parts }]
    } else {
        singles(parts)
    }
}

/// What is imported from these folders, one after the other.
pub open spec fn steps_in(dirs: Seq<Seq<char>>, found: Seq<FoundView>) -> Seq<StepView>
    decreases dirs.len(),
{
    if dirs.len() == 0 {
        Seq::empty()
    } else {
        steps_in(dirs.drop_last(), found) + folder_steps(dirs.last(), sorted_paths(found_in(found, dirs.last())))
    }
}

/// What is imported of the files found.
pub open spec fn import_plan(found: Seq<FoundView>) -> Seq<StepView> {
    steps_in(folders(found), found)
}

/// The folders that hold audiobooks, each once, in the order of paths.
fn list_folders(found: &Vec<FoundFile>) -> (r: Vec<String>)
    ensures
        views(r@) == folders(views(found@)),
        is_listing(
            audio_files(views(found@)).map_values(|f: FoundView| f.dir),
            |d: Seq<char>| folder_key(d),
            views(r@),
        ),
{
    let ghost all = views(found@);
    let ghost p = |f: FoundView| audiobook_path(f.path);
    let ghost g = |f: FoundView| f.dir;
    let ghost key = |d: Seq<char>| folder_key(d);
    let mut out: Vec<String> = Vec::new();
    let mut n: usize = 0;
    proof {
        reveal(Seq::filter);
        assert(all.take(0).filter(p).map_values(g) =~= Seq::empty());
        assert(views(out@) =~= Seq::empty());
        assert(is_listing(all.take(0).filter(p).map_values(g), key, views(out@)));
    }
    while n < found.len()
        invariant
            n <= found.len(),
            all == views(found@),
            p == (|f: FoundView| audiobook_path(f.path)),
            g == (|f: FoundView| f.dir),
            key == (|d: Seq<char>| folder_key(d)),
            is_listing(all.take(n as int).filter(p).map_values(g), key, views(out@)),
        decreases found.len() - n,
    {
        let ghost rows = all.take(n as int).filter(p).map_values(g);
        proof {
            filter_step(all, n as int, p);
            assert(all[n as int] == found@[n as int]@);
        }
        if is_audiobook(found[n].path.as_str()) {
            let ghost d = found@[n as int].dir@;
            let ghost rows1 = all.take(n + 1).filter(p).map_values(g);
            assert(rows1 =~= rows.push(d));
            let mut at: usize = 0;
            while at < out.len() && !paths::path_at_most(found[n].dir.as_str(), out[at].as_str())
                invariant
                    n < found.len(),
                    d == found@[n as int].dir@,
                    at <= out.len(),
                    forall|i: int| 0 <= i < at ==> !path_leq(d, (#[trigger] out@[i])@),
                decreases out.len() - at,
            {
                at = at + 1;
            }
            let ghost before = views(out@);
            if at < out.len() && text::same(found[n].dir.as_str(), out[at].as_str()) {
                proof {
                    assert(before[at as int] == d);
                    listed_again(rows, key, before, d);
                }
            } else {
                proof {
                    assert forall|i: int| 0 <= i < at implies !path_leq(d, #[trigger] before[i]) by {
                        assert(before[i] == out@[i]@);
                    }
                    assert(at < before.len() ==> before[at as int] == out@[at as int]@);
                }
                out.insert(at, found[n].dir.clone());
                proof {
                    assert(views(out@) =~= before.insert(at as int, d));
                    folder_place(before, at as int, d);
                    listed_new(rows, key, before, at as int, d);
                }
            }
        }
        n = n + 1;
    }
    proof {
        assert(all.take(n as int) =~= all);
        listing_is(audio_files(all).map_values(g), key, views(out@));
    }
    out
}

/// A folder stands before those that it does not come after, unless it is the
/// same.
proof fn folder_place(s: Seq<Seq<char>>, at: int, d: Seq<char>)
    requires
        0 <= at <= s.len(),
        forall|i: int| 0 <= i < at ==> !path_leq(d, #[trigger] s[i]),
        at < s.len() ==> path_leq(d, s[at]) && s[at] != d,
    ensures
        forall|i: int| 0 <= i < at ==> key_less(folder_key(#[trigger] s[i]), folder_key(d)),
        at < s.len() ==> key_less(folder_key(d), folder_key(s[at])),
{
    if at < s.len() {
        paths::path_order_is_total();
        let r = paths::path_order();
        assert(r(d, s[at]));
        if r(s[at], d) {
            assert(d == s[at]);
        }
    }
}

/// The audiobooks in a folder, as they were found.
fn list_found_in(found: &Vec<FoundFile>, dir: &str) -> (r: Vec<String>)
    ensures
        views(r@) == found_in(views(found@), dir@),
{
    let ghost all = views(found@);
    let ghost p = |f: FoundView| audiobook_path(f.path);
    let ghost q = |f: FoundView| f.dir == dir@;
    let ghost g = |f: FoundView| f.path;
    let mut out: Vec<String> = Vec::new();
    let mut n: usize = 0;
    proof {
        reveal(Seq::filter);
        assert(views(out@) =~= all.take(0).filter(p).filter(q).map_values(g));
    }
    while n < found.len()
        invariant
            n <= found.len(),
            all == views(found@),
            p == (|f: FoundView| audiobook_path(f.path)),
            q == (|f: FoundView| f.dir == dir@),
            g == (|f: FoundView| f.path),
            views(out@) == all.take(n as int).filter(p).filter(q).map_values(g),
        decreases found.len() - n,
    {
        let ghost few = all.take(n as int).filter(p);
        let ghost before = out@;
        proof {
            filter_step(all, n as int, p);
            assert(all[n as int] == found@[n as int]@);
            if p(all[n as int]) {
                let more = few.push(all[n as int]);
                filter_step(more, few.len() as int, q);
                assert(more.take(few.len() as int) =~= few);
                assert(more.take(few.len() as int + 1) =~= more);
            }
        }
        if is_audiobook(found[n].path.as_str()) && text::same(found[n].dir.as_str(), dir) {
            out.push(found[n].path.clone());
            proof {
                assert(views(out@) =~= views(before).push(all[n as int].path));
                assert(all.take(n + 1).filter(p).filter(q).map_values(g) =~= few.filter(q).map_values(g).push(
                    all[n as int].path,
                ));
            }
        }
        n = n + 1;
    }
    assert(all.take(n as int) =~= all);
    out
}

/// Add each file as a book of its own.
fn push_singles(out: &mut Vec<Step>, files: &Vec<String>)
    ensures
        views(final(out)@) == views(old(out)@) + singles(views(files@)),
{
    let ghost before = views(out@);
    let ghost all = views(files@);
    let mut i: usize = 0;
    assert(before + singles(all.take(0)) =~= before);
    while i < files.len()
        invariant
            i <= files.len(),
            all == views(files@),
            views(out@) == before + singles(all.take(i as int)),
        decreases files.len() - i,
    {
        let ghost now = views(out@);
        let step = Step::Single(files[i].clone());
        out.push(step);
        proof {
            assert(views(out@) =~= now.push(step@));
            assert(all.take(i + 1) =~= all.take(i as int).push(files@[i as int]@));
            assert(views(out@) =~= before + singles(all.take(i + 1)));
        }
        i = i + 1;
    }
    assert(all.take(i as int) =~= all);
}

/// The files that stand alone, and the loose ones.
fn part_files(files: &Vec<String>) -> (r: (Vec<String>, Vec<String>))
    ensures
        views(r.0@) == views(files@).filter(|p: Seq<char>| standalone_path(p)),
        views(r.1@) == views(files@).filter(|p: Seq<char>| !standalone_path(p)),
{
    let ghost all = views(files@);
    let ghost p = |p: Seq<char>| standalone_path(p);
    let ghost q = |p: Seq<char>| !standalone_path(p);
    let mut alone: Vec<String> = Vec::new();
    let mut parts: Vec<String> = Vec::new();
    let mut n: usize = 0;
    proof {
        reveal(Seq::filter);
        assert(views(alone@) =~= all.take(0).filter(p));
        assert(views(parts@) =~= all.take(0).filter(q));
    }
    while n < files.len()
        invariant
            n <= files.len(),
            all == views(files@),
            p == (|p: Seq<char>| standalone_path(p)),
            q == (|p: Seq<char>| !standalone_path(p)),
            views(alone@) == all.take(n as int).filter(p),
            views(parts@) == all.take(n as int).filter(q),
        decreases files.len() - n,
    {
        proof {
            filter_step(all, n as int, p);
            filter_step(all, n as int, q);
            assert(all[n as int] == files@[n as int]@);
        }
        let ghost a = alone@;
        let ghost b = parts@;
        if is_standalone(files[n].as_str()) {
            alone.push(files[n].clone());
            assert(views(alone@) =~= views(a).push(all[n as int]));
        } else {
            parts.push(files[n].clone());
            assert(views(parts@) =~= views(b).push(all[n as int]));
        }
        n = n + 1;
    }
    assert(all.take(n as int) =~= all);
    (alone, parts)
}

/// What is to be imported of the files found under a storage root: folders of
/// loose audio files are grouped into single multi-file books.
pub fn plan(found: &Vec<FoundFile>) -> (r: Vec<Step>)
    ensures
        views(r@) == import_plan(views(found@)),
{
    let dirs = list_folders(found);
    let ghost ds = views(dirs@);
    let ghost all = views(found@);
    let mut out: Vec<Step> = Vec::new();
    let mut i: usize = 0;
    assert(ds.take(0) =~= Seq::empty());
    assert(views(out@) =~= steps_in(ds.take(0), all));
    while i < dirs.len()
        invariant
            i <= dirs.len(),
            ds == views(dirs@),
            all == views(found@),
            views(out@) == steps_in(ds.take(i as int), all),
        decreases dirs.len() - i,
    {
        let ghost before = views(out@);
        let ghost dir = ds[i as int];
        assert(dir == dirs@[i as int]@);
        let files = paths::sort_paths(&list_found_in(found, dirs[i].as_str()));
        let (alone, parts) = part_files(&files);
        push_singles(&mut out, &alone);
        let ghost mid = views(out@);
        if parts.len() >= MIN_MULTI_FILES {
            let step = Step::Multi { dir: dirs[i].clone(), parts };
            out.push(step);
            proof {
                assert(views(out@) =~= mid.push(step@));
                assert(views(out@) =~= before + folder_steps(dir, sorted_paths(found_in(all, dir))));
            }
        } else {
            push_singles(&mut out, &parts);
            assert(views(out@) =~= before + folder_steps(dir, sorted_paths(found_in(all, dir))));
        }
        proof {
            assert(ds.take(i + 1).drop_last() =~= ds.take(i as int));
            assert(ds.take(i + 1).last() == dir);
        }
        i = i + 1;
    }
    assert(ds.take(i as int) =~= ds);
    out
}

// ---- importing one book ----------------------------------------------------

/// Whether a file is still to be imported. One that is in the library already
/// is counted as skipped.
pub fn wants_single(db: &Database, path: &str, report: &mut ImportReport) -> (r: bool)
    requires
        db.wf(),
        old(report)@.has_room(),
    ensures
        r == !has_path(db@.books, path@),
        final(report)@ == if r {
            old(report)@
        } else {
            old(report)@.with_skipped()
        },
{
    match db.book_path_exists(path) {
        Ok(true) => {
            report.skipped_existing = report.skipped_existing + 1;
            false
        },
        _ => true,
    }
}

/// What comes of a file that was read, or could not be, at time `now`: the
/// library and the report after it. A file that is in the library already is
/// left untouched.
pub open spec fn single_imported(
    db: DatabaseView,
    report: ReportView,
    path: Seq<char>,
    read: Result<MetaView, Seq<char>>,
    now: i64,
) -> (DatabaseView, ReportView) {
    if has_path(db.books, path) {
        (db, report.with_skipped())
    } else {
        match read {
            Ok(meta) => if db.can_put_book(path) {
                (db.put_book(path, meta, meta.chapters.len() as usize, false, now), report.with_imported())
            } else {
                (db, report.with_failed(path, DbError::Full.text()))
            },
            Err(reason) => (db, report.with_failed(path, reason)),
        }
    }
}

/// A book that was read, or why it could not be.
pub open spec fn read_view(read: Result<BookMeta, String>) -> Result<MetaView, Seq<char>> {
    match read {
        Ok(m) => Ok(m@),
        Err(e) => Err(e@),
    }
}

/// Import a file as a single-file book, at a given time, unless it is in the
/// library already. `read` is what its tags say, or why they could not be read.
pub fn import_single_at(db: &mut Database, path: &str, read: Result<BookMeta, String>, report: &mut ImportReport, now: i64)
    requires
        old(db).wf(),
        old(report)@.has_room(),
    ensures
        final(db).wf(),
        final(db).records(*old(db)),
        (final(db)@, final(report)@) == single_imported(old(db)@, old(report)@, path@, read_view(read), now),
{
    if !wants_single(db, path, report) {
        return;
    }
    match read {
        Ok(meta) => match db.upsert_book_at(path, &meta, now) {
            Ok(_) => {
                report.imported = report.imported + 1;
            },
            Err(e) => {
                report.fail(path, e.message());
            },
        },
        Err(reason) => {
            report.fail(path, reason);
        },
    }
}

/// Import a file as a single-file book, now, unless it is in the library
/// already.
pub fn import_single(db: &mut Database, path: &str, read: Result<BookMeta, String>, report: &mut ImportReport)
    requires
        old(db).wf(),
        old(report)@.has_room(),
    ensures
        final(db).wf(),
        final(db).records(*old(db)),
        exists|now: i64|
            (final(db)@, final(report)@) == #[trigger] single_imported(old(db)@, old(report)@, path@, read_view(read), now),
{
    let now = crate::library::db::now_unix();
    import_single_at(db, path, read, report, now)
}

/// Insert or refresh one file as a single-file book, by what its tags say, and
/// tell its id.
pub fn import_file(db: &mut Database, path: &str, meta: &BookMeta) -> (r: Result<i64, DbError>)
    requires
        old(db).wf(),
    ensures
        final(db).wf(),
        final(db).records(*old(db)),
        exists|now: i64| book_put(old(db)@, path@, meta@, now, final(db)@, r),
{
    db.upsert_book(path, meta)
}

/// The database without the single-file books at these paths.
pub open spec fn without_singles(db: DatabaseView, parts: Seq<Seq<char>>) -> DatabaseView
    decreases parts.len(),
{
    if parts.len() == 0 {
        db
    } else {
        without_singles(db, parts.drop_last()).without_single(parts.last())
    }
}

/// Whether a folder is still to be imported as one book. Any stale per-file
/// entries (imported before this folder was recognised as one multi-file book)
/// are cleaned up first; a folder that is in the library already is counted as
/// skipped.
pub fn wants_multi(db: &mut Database, dir: &str, parts: &Vec<String>, report: &mut ImportReport) -> (r: bool)
    requires
        old(db).wf(),
        old(report)@.has_room(),
    ensures
        final(db).wf(),
        final(db).records(*old(db)),
        final(db)@ == without_singles(old(db)@, views(parts@)),
        r == !has_path(final(db)@.books, dir@),
        final(report)@ == if r {
            old(report)@
        } else {
            old(report)@.with_skipped()
        },
{
    let ghost before = db@;
    let ghost all = views(parts@);
    let mut i: usize = 0;
    assert(all.take(0) =~= Seq::empty());
    while i < parts.len()
        invariant
            i <= parts.len(),
            all == views(parts@),
            db.wf(),
            db.records(*old(db)),
            db@ == without_singles(before, all.take(i as int)),
        decreases parts.len() - i,
    {
        let _ = db.remove_single_file_book(parts[i].as_str());
        proof {
            assert(all.take(i + 1).drop_last() =~= all.take(i as int));
            assert(all.take(i + 1).last() == parts@[i as int]@);
        }
        i = i + 1;
    }
    assert(all.take(i as int) =~= all);
    match db.book_path_exists(dir) {
        Ok(true) => {
            report.skipped_existing = report.skipped_existing + 1;
            false
        },
        _ => true,
    }
}

/// A member file of a folder, with its title and duration, or why they could
/// not be read.
#[derive(Debug)]
pub struct Part {
    pub path: String,
    pub info: Result<(String, Duration), String>,
}

/// What a [`Part`] holds.
#[verifier::ext_equal]
pub struct PartView {
    pub path: Seq<char>,
    pub info: Result<(Seq<char>, nat), Seq<char>>,
}

impl View for Part {
    type V = PartView;

    open spec fn view(&self) -> PartView {
        PartView {
            path: self.path@,
            info: match self.info {
                Ok((title, duration)) => Ok((title@, duration@)),
                Err(e) => Err(e@),
            },
        }
    }
}

/// How long the readable parts are together.
pub open spec fn total_length(parts: Seq<PartView>) -> nat
    decreases parts.len(),
{
    if parts.len() == 0 {
        0
    } else {
        total_length(parts.drop_last()) + match parts.last().info {
            Ok((_, d)) => d,
            Err(_) => 0,
        }
    }
}

/// The readable parts as tracks, each beginning where the one before it ends.
pub open spec fn track_list(parts: Seq<PartView>) -> Seq<TrackView>
    decreases parts.len(),
{
    if parts.len() == 0 {
        Seq::empty()
    } else {
        let before = track_list(parts.drop_last());
        match parts.last().info {
            Ok((title, duration)) => before.push(
                TrackView {
                    idx: before.len() as usize,
                    path: parts.last().path,
                    start: total_length(parts.drop_last()),
                    duration,
                    title,
                },
            ),
            Err(_) => before,
        }
    }
}

/// The parts that could not be read, with the reasons.
pub open spec fn unreadable(parts: Seq<PartView>) -> Seq<(Seq<char>, Seq<char>)>
    decreases parts.len(),
{
    if parts.len() == 0 {
        Seq::empty()
    } else {
        let before = unreadable(parts.drop_last());
        match parts.last().info {
            Ok(_) => before,
            Err(e) => before.push((parts.last().path, e)),
        }
    }
}

/// The title of a folder's book: the album or else the title of its first
/// readable file, unless that is blank, else the folder's name.
pub open spec fn folder_title(dir: Seq<char>, header: Option<MetaView>) -> Seq<char> {
    let named = match header {
        Some(h) => if h.album is Some {
            h.album
        } else {
            h.title
        },
        None => None,
    };
    if named is Some && trimmed(named->Some_0).len() > 0 {
        named->Some_0
    } else {
        match name_of(dir) {
            Some(n) => n,
            None => "Audiobook"@,
        }
    }
}

/// What is known of a folder's book: from its first readable file, with the
/// cover of the folder where that file has none.
pub open spec fn folder_meta(dir: Seq<char>, header: Option<MetaView>, cover: Option<CoverView>, length: nat) -> MetaView {
    MetaView {
        title: Some(folder_title(dir, header)),
        author: if header is Some { header->Some_0.author } else { None },
        reader: if header is Some { header->Some_0.reader } else { None },
        album: if header is Some { header->Some_0.album } else { None },
        file_name: None,
        duration: Some(length),
        chapters: Seq::empty(),
        cover: if header is Some && header->Some_0.cover is Some { header->Some_0.cover } else { cover },
    }
}

/// Where the parts are.
pub open spec fn part_paths(parts: Seq<PartView>) -> Seq<Seq<char>> {
    parts.map_values(|p: PartView| p.path)
}

/// What comes of a folder whose parts were read, or could not be, at time
/// `now`: the library and the report after it. A folder that is in the library
/// already is left untouched, but none of its parts stays there as a book of its
/// own.
pub open spec fn multi_imported(
    db: DatabaseView,
    report: ReportView,
    dir: Seq<char>,
    header: Option<MetaView>,
    cover: Option<CoverView>,
    parts: Seq<PartView>,
    now: i64,
) -> (DatabaseView, ReportView) {
    let clean = without_singles(db, part_paths(parts));
    let told = ReportView { failed: report.failed + unreadable(parts), ..report };
    let tracks = track_list(parts);
    if has_path(clean.books, dir) {
        (clean, report.with_skipped())
    } else if tracks.len() == 0 {
        (clean, told)
    } else if clean.can_put_book(dir) {
        (
            clean.put_multi_book(dir, folder_meta(dir, header, cover, total_length(parts)), tracks, now),
            told.with_imported(),
        )
    } else {
        (clean, told.with_failed(dir, DbError::Full.text()))
    }
}

/// Whether a book can be as long as these parts together.
pub fn lengths_fit(parts: &Vec<Part>) -> (r: bool)
    ensures
        r == (total_length(views(parts@)) <= MAX_NANOS),
{
    let ghost all = views(parts@);
    let mut total = Duration::zero();
    let mut i: usize = 0;
    assert(all.take(0) =~= Seq::empty());
    while i < parts.len()
        invariant
            i <= parts.len(),
            all == views(parts@),
            total@ == total_length(all.take(i as int)),
        decreases parts.len() - i,
    {
        proof {
            assert(all.take(i + 1).drop_last() =~= all.take(i as int));
            assert(all.take(i + 1).last() == parts@[i as int]@);
        }
        match &parts[i].info {
            Ok((_, d)) => match total.checked_add(d) {
                Some(sum) => {
                    total = sum;
                },
                None => {
                    proof {
                        total_grows(all, i + 1);
                    }
                    return false;
                },
            },
            Err(_) => {},
        }
        i = i + 1;
    }
    assert(all.take(i as int) =~= all);
    total.as_nanos() <= MAX_NANOS
}

proof fn total_grows(parts: Seq<PartView>, n: int)
    requires
        0 <= n <= parts.len(),
    ensures
        total_length(parts.take(n)) <= total_length(parts),
    decreases parts.len(),
{
    if n < parts.len() {
        total_grows(parts.drop_last(), n);
        assert(parts.drop_last().take(n) =~= parts.take(n));
    } else {
        assert(parts.take(n) =~= parts);
    }
}

/// The ordered track list with cumulative offsets, and the whole length. Parts
/// that could not be read are reported instead.
fn build_tracks(parts: &Vec<Part>, report: &mut ImportReport) -> (r: (Vec<Track>, Duration))
    requires
        total_length(views(parts@)) <= MAX_NANOS,
    ensures
        views(r.0@) == track_list(views(parts@)),
        r.1@ == total_length(views(parts@)),
        final(report)@ == (ReportView {
            failed: old(report)@.failed + unreadable(views(parts@)),
            ..old(report)@
        }),
{
    let ghost all = views(parts@);
    let ghost told = report@;
    let mut tracks: Vec<Track> = Vec::new();
    let mut start = Duration::zero();
    let mut i: usize = 0;
    proof {
        assert(all.take(0) =~= Seq::empty());
        assert(views(tracks@) =~= track_list(all.take(0)));
        assert(told.failed + unreadable(all.take(0)) =~= told.failed);
    }
    while i < parts.len()
        invariant
            i <= parts.len(),
            all == views(parts@),
            total_length(all) <= MAX_NANOS,
            views(tracks@) == track_list(all.take(i as int)),
            start@ == total_length(all.take(i as int)),
            report@ == (ReportView { failed: told.failed + unreadable(all.take(i as int)), ..told }),
        decreases parts.len() - i,
    {
        proof {
            assert(all.take(i + 1).drop_last() =~= all.take(i as int));
            assert(all.take(i + 1).last() == parts@[i as int]@);
            total_grows(all, i + 1);
        }
        match &parts[i].info {
            Ok((title, duration)) => {
                let ghost before = tracks@;
                let idx = tracks.len();
                let track = Track {
                    idx,
                    path: parts[i].path.clone(),
                    start,
                    duration: *duration,
                    title: title.clone(),
                };
                tracks.push(track);
                proof {
                    assert(views(before).len() == before.len());
                    assert(views(tracks@) =~= views(before).push(track@));
                }
                match start.checked_add(duration) {
                    Some(sum) => {
                        start = sum;
                    },
                    None => {},
                }
            },
            Err(e) => {
                let ghost failed = report@.failed;
                report.fail(parts[i].path.as_str(), e.clone());
                assert(told.failed + unreadable(all.take(i + 1)) =~= failed.push((parts@[i as int]@.path, e@)));
            },
        }
        i = i + 1;
    }
    assert(all.take(i as int) =~= all);
    (tracks, start)
}

fn title_for(dir: &str, header: &Option<BookMeta>) -> (r: String)
    ensures
        r@ == folder_title(dir@, view_of(*header)),
{
    match header {
        Some(h) => {
            let named = if h.album.is_some() {
                copy_text(&h.album)
            } else {
                copy_text(&h.title)
            };
            match named {
                Some(t) => {
                    if !is_blank(t.as_str()) {
                        return t;
                    }
                },
                None => {},
            }
        },
        None => {},
    }
    match paths::file_name(dir) {
        Some(n) => n,
        None => "Audiobook".to_owned(),
    }
}

fn meta_for(dir: &str, header: &Option<BookMeta>, cover: &Option<Cover>, length: Duration) -> (r: BookMeta)
    ensures
        r@ == folder_meta(dir@, view_of(*header), cover_of(*cover), length@),
{
    let title = Some(title_for(dir, header));
    let chapters: Vec<Chapter> = Vec::new();
    assert(views(chapters@) =~= Seq::empty());
    match header {
        Some(h) => BookMeta {
            title,
            author: copy_text(&h.author),
            reader: copy_text(&h.reader),
            album: copy_text(&h.album),
            file_name: None,
            duration: Some(length),
            chapters,
            cover: if h.cover.is_some() { copy_cover(&h.cover) } else { copy_cover(cover) },
        },
        None => BookMeta {
            title,
            author: None,
            reader: None,
            album: None,
            file_name: None,
            duration: Some(length),
            chapters,
            cover: copy_cover(cover),
        },
    }
}

fn paths_of(parts: &Vec<Part>) -> (r: Vec<String>)
    ensures
        views(r@) == part_paths(views(parts@)),
{
    let ghost all = views(parts@);
    let mut out: Vec<String> = Vec::new();
    let mut i: usize = 0;
    assert(views(out@) =~= part_paths(all.take(0)));
    while i < parts.len()
        invariant
            i <= parts.len(),
            all == views(parts@),
            views(out@) == part_paths(all.take(i as int)),
        decreases parts.len() - i,
    {
        let ghost before = views(out@);
        out.push(parts[i].path.clone());
        proof {
            assert(views(out@) =~= before.push(parts@[i as int]@.path));
            assert(all.take(i + 1) =~= all.take(i as int).push(parts@[i as int]@));
            assert(part_paths(all.take(i + 1)) =~= before.push(parts@[i as int]@.path));
        }
        i = i + 1;
    }
    assert(all.take(i as int) =~= all);
    out
}

/// Import a folder of loose audio files as one multi-file book (each file a
/// chapter, in filename order), at a given time, unless it is in the library
/// already. `header` is what the first readable file says, and `cover` the image
/// that the folder holds.
pub fn import_multi_at(
    db: &mut Database,
    dir: &str,
    header: &Option<BookMeta>,
    cover: &Option<Cover>,
    parts: &Vec<Part>,
    report: &mut ImportReport,
    now: i64,
)
    requires
        old(db).wf(),
        old(report)@.has_room(),
        total_length(views(parts@)) <= MAX_NANOS,
    ensures
        final(db).wf(),
        final(db).records(*old(db)),
        (final(db)@, final(report)@) == multi_imported(
            old(db)@,
            old(report)@,
            dir@,
            view_of(*header),
            cover_of(*cover),
            views(parts@),
            now,
        ),
{
    if !wants_multi(db, dir, &paths_of(parts), report) {
        return;
    }
    let (tracks, length) = build_tracks(parts, report);
    assert(views(tracks@).len() == tracks.len());
    if tracks.len() == 0 {
        return;
    }
    let meta = meta_for(dir, header, cover, length);
    proof {
        assert(views(parts@).len() == parts.len());
        tracks_follow_each_other(views(parts@));
        numbers_grow(views(tracks@));
    }
    match db.upsert_multi_book_at(dir, &meta, &tracks, now) {
        Ok(_) => {
            report.imported = report.imported + 1;
        },
        Err(e) => {
            report.fail(dir, e.message());
        },
    }
}

/// Import a folder of loose audio files as one multi-file book, now, unless it
/// is in the library already.
pub fn import_multi(
    db: &mut Database,
    dir: &str,
    header: &Option<BookMeta>,
    cover: &Option<Cover>,
    parts: &Vec<Part>,
    report: &mut ImportReport,
)
    requires
        old(db).wf(),
        old(report)@.has_room(),
        total_length(views(parts@)) <= MAX_NANOS,
    ensures
        final(db).wf(),
        final(db).records(*old(db)),
        exists|now: i64|
            (final(db)@, final(report)@) == #[trigger] multi_imported(
                old(db)@,
                old(report)@,
                dir@,
                view_of(*header),
                cover_of(*cover),
                views(parts@),
                now,
            ),
{
    let now = crate::library::db::now_unix();
    import_multi_at(db, dir, header, cover, parts, report, now)
}

// ---- what holds of an import -----------------------------------------------

proof fn numbers_grow(tracks: Seq<TrackView>)
    requires
        tracks.len() <= usize::MAX,
        forall|i: int| 0 <= i < tracks.len() ==> (#[trigger] tracks[i]).idx == i,
    ensures
        distinct_tracks(tracks) == tracks.len(),
    decreases tracks.len(),
{
    if tracks.len() > 0 {
        let t = tracks.drop_last();
        assert forall|i: int| 0 <= i < t.len() implies (#[trigger] t[i]).idx == i by {
            assert(tracks[i].idx == i);
        }
        numbers_grow(t);
    }
}

/// The tracks of a folder are numbered from zero, the first begins with the
/// book, each other one begins where the one before it ends, and the book ends
/// with the last. Tracks and failures together are all the parts.
pub proof fn tracks_follow_each_other(parts: Seq<PartView>)
    requires
        parts.len() <= usize::MAX,
    ensures
        ({
            let t = track_list(parts);
            &&& t.len() + unreadable(parts).len() == parts.len()
            &&& forall|i: int| 0 <= i < t.len() ==> (#[trigger] t[i]).idx == i
            &&& t.len() > 0 ==> t[0].start == 0
            &&& forall|i: int, j: int|
                0 <= i && j == i + 1 && j < t.len() ==> (#[trigger] t[j]).start == (#[trigger] t[i]).start + t[i].duration
            &&& t.len() > 0 ==> t.last().start + t.last().duration == total_length(parts)
            &&& t.len() == 0 ==> total_length(parts) == 0
        }),
    decreases parts.len(),
{
    if parts.len() > 0 {
        tracks_follow_each_other(parts.drop_last());
    }
}

/// Every part that could not be read is reported with its reason.
pub proof fn every_failure_is_reported(parts: Seq<PartView>, i: int)
    requires
        0 <= i < parts.len(),
        parts[i].info is Err,
    ensures
        unreadable(parts).contains((parts[i].path, parts[i].info->Err_0)),
    decreases parts.len(),
{
    let u = unreadable(parts);
    if i == parts.len() - 1 {
        assert(u.last() == (parts[i].path, parts[i].info->Err_0));
    } else {
        let t = parts.drop_last();
        every_failure_is_reported(t, i);
        let before = unreadable(t);
        let k = choose|k: int| 0 <= k < before.len() && before[k] == (parts[i].path, parts[i].info->Err_0);
        assert(u[k] == before[k]);
    }
}

/// The files of the books to import, one after the other.
pub open spec fn planned_files(steps: Seq<StepView>) -> Seq<Seq<char>>
    decreases steps.len(),
{
    if steps.len() == 0 {
        Seq::empty()
    } else {
        planned_files(steps.drop_last()) + match steps.last() {
            StepView::Single(p) => seq![p],
            StepView::Multi { parts, .. } => parts,
        }
    }
}

proof fn planned_both(a: Seq<StepView>, b: Seq<StepView>)
    ensures
        planned_files(a + b) == planned_files(a) + planned_files(b),
    decreases b.len(),
{
    if b.len() == 0 {
        assert(a + b =~= a);
        assert(planned_files(a) + planned_files(b) =~= planned_files(a));
    } else {
        planned_both(a, b.drop_last());
        assert((a + b).drop_last() =~= a + b.drop_last());
        assert(planned_files(a + b) =~= planned_files(a) + planned_files(b));
    }
}

proof fn planned_singles(files: Seq<Seq<char>>)
    ensures
        planned_files(singles(files)) == files,
    decreases files.len(),
{
    if files.len() == 0 {
        assert(planned_files(singles(files)) =~= files);
    } else {
        planned_singles(files.drop_last());
        assert(singles(files).drop_last() =~= singles(files.drop_last()));
        assert(files.drop_last() + seq![files.last()] =~= files);
    }
}

proof fn multiset_of_both<T>(a: Seq<T>, b: Seq<T>)
    ensures
        (a + b).to_multiset() == a.to_multiset().add(b.to_multiset()),
{
    vstd::seq_lib::lemma_multiset_commutative(a, b);
}

/// Files sorted into two kinds are all there.
proof fn kinds_make_up_all<T, U>(s: Seq<T>, p: spec_fn(T) -> bool, q: spec_fn(T) -> bool, f: spec_fn(T) -> U, all: spec_fn(T) -> bool)
    requires
        forall|x: T| #[trigger] all(x) == (p(x) || q(x)),
        forall|x: T| !(#[trigger] p(x) && q(x)),
    ensures
        s.filter(all).map_values(f).to_multiset() == s.filter(p).map_values(f).to_multiset().add(
            s.filter(q).map_values(f).to_multiset(),
        ),
    decreases s.len(),
{
    reveal(Seq::filter);
    broadcast use vstd::multiset::group_multiset_axioms;

    if s.len() == 0 {
        assert(s.filter(all).map_values(f) =~= Seq::<U>::empty());
        assert(s.filter(p).map_values(f) =~= Seq::<U>::empty());
        assert(s.filter(q).map_values(f) =~= Seq::<U>::empty());
        multiset_of_both(Seq::<U>::empty(), Seq::<U>::empty());
        assert(Seq::<U>::empty() + Seq::<U>::empty() =~= Seq::<U>::empty());
    } else {
        let t = s.drop_last();
        let x = s.last();
        kinds_make_up_all(t, p, q, f, all);
        let a = t.filter(all).map_values(f);
        let b = t.filter(p).map_values(f);
        let c = t.filter(q).map_values(f);
        vstd::seq_lib::to_multiset_build(a, f(x));
        vstd::seq_lib::to_multiset_build(b, f(x));
        vstd::seq_lib::to_multiset_build(c, f(x));
        assert(all(x) == (p(x) || q(x)));
        assert(!(p(x) && q(x)));
        if all(x) {
            assert(s.filter(all).map_values(f) =~= a.push(f(x)));
        }
        if p(x) {
            assert(s.filter(p).map_values(f) =~= b.push(f(x)));
        }
        if q(x) {
            assert(s.filter(q).map_values(f) =~= c.push(f(x)));
        }
        assert(s.filter(all).map_values(f).to_multiset() =~= s.filter(p).map_values(f).to_multiset().add(
            s.filter(q).map_values(f).to_multiset(),
        ));
    }
}

proof fn folder_is_whole(dir: Seq<char>, files: Seq<Seq<char>>)
    ensures
        planned_files(folder_steps(dir, files)).to_multiset() == files.to_multiset(),
{
    let p = |p: Seq<char>| standalone_path(p);
    let q = |p: Seq<char>| !standalone_path(p);
    let id = |p: Seq<char>| p;
    let all = |p: Seq<char>| true;
    let alone = files.filter(p);
    let parts = files.filter(q);
    let rest = if parts.len() >= MIN_MULTI_FILES {
        seq![StepView::Multi { dir, parts }]
    } else {
        singles(parts)
    };
    planned_both(singles(alone), rest);
    planned_singles(alone);
    planned_singles(parts);
    if parts.len() >= MIN_MULTI_FILES {
        assert(rest.drop_last() =~= Seq::empty());
        assert(planned_files(rest.drop_last()) =~= Seq::empty());
        assert(planned_files(rest) =~= parts);
    }
    multiset_of_both(alone, parts);
    kinds_make_up_all(files, p, q, id, all);
    filter_all(files, all);
    assert(files.map_values(id) =~= files);
    assert(alone.map_values(id) =~= alone);
    assert(parts.map_values(id) =~= parts);
}

proof fn folders_are_whole(dirs: Seq<Seq<char>>, found: Seq<FoundView>)
    requires
        forall|i: int, j: int| 0 <= i < j < dirs.len() ==> dirs[i] != dirs[j],
    ensures
        planned_files(steps_in(dirs, found)).to_multiset() == audio_files(found).filter(
            |f: FoundView| dirs.contains(f.dir),
        ).map_values(|f: FoundView| f.path).to_multiset(),
    decreases dirs.len(),
{
    let audio = audio_files(found);
    let g = |f: FoundView| f.path;
    let within = |f: FoundView| dirs.contains(f.dir);
    if dirs.len() == 0 {
        let none = audio.filter(within);
        filter_from(audio, within);
        if none.len() > 0 {
            assert(within(none[0]));
        }
        assert(none =~= Seq::empty());
        assert(none.map_values(g) =~= planned_files(steps_in(dirs, found)));
    } else {
        let few = dirs.drop_last();
        let d = dirs.last();
        let before = |f: FoundView| few.contains(f.dir);
        let here = |f: FoundView| f.dir == d;
        assert forall|i: int, j: int| 0 <= i < j < few.len() implies few[i] != few[j] by {
            assert(dirs[i] != dirs[j]);
        }
        folders_are_whole(few, found);
        assert forall|f: FoundView| #[trigger] within(f) == (before(f) || here(f)) by {
            if few.contains(f.dir) {
                let k = choose|k: int| 0 <= k < few.len() && few[k] == f.dir;
                assert(dirs[k] == f.dir);
            }
            if f.dir == d {
                assert(dirs[dirs.len() - 1] == d);
            }
            if dirs.contains(f.dir) && f.dir != d {
                let k = choose|k: int| 0 <= k < dirs.len() && dirs[k] == f.dir;
                assert(few[k] == f.dir);
            }
        }
        assert forall|f: FoundView| !(#[trigger] before(f) && here(f)) by {
            if few.contains(f.dir) && f.dir == d {
                let k = choose|k: int| 0 <= k < few.len() && few[k] == f.dir;
                assert(dirs[k] != dirs[dirs.len() - 1]);
            }
        }
        kinds_make_up_all(audio, before, here, g, within);
        let files = sorted_paths(found_in(found, d));
        paths::path_order_is_total();
        found_in(found, d).lemma_sort_by_ensures(paths::path_order());
        folder_is_whole(d, files);
        planned_both(steps_in(few, found), folder_steps(d, files));
        multiset_of_both(planned_files(steps_in(few, found)), planned_files(folder_steps(d, files)));
    }
}

/// Nothing that was found is lost or imported twice: the books to import are
/// made of exactly the audiobook files found.
pub proof fn plan_is_whole(found: Seq<FoundView>)
    ensures
        planned_files(import_plan(found)).to_multiset() == audio_files(found).map_values(
            |f: FoundView| f.path,
        ).to_multiset(),
{
    let audio = audio_files(found);
    let g = |f: FoundView| f.dir;
    let key = |d: Seq<char>| folder_key(d);
    let rows = audio.map_values(g);
    assert forall|i: int, j: int|
        0 <= i < rows.len() && 0 <= j < rows.len() && key(#[trigger] rows[i]) == key(#[trigger] rows[j]) implies rows[i]
        == rows[j] by {
        paths::ranks_tell_paths(rows[i], rows[j]);
    }
    listing_exists(rows, key);
    let dirs = folders(found);
    assert forall|i: int, j: int| 0 <= i < j < dirs.len() implies dirs[i] != dirs[j] by {
        assert(key_less(key(dirs[i]), key(dirs[j])));
        crate::order::key_order(key(dirs[i]), key(dirs[j]));
    }
    folders_are_whole(dirs, found);
    let within = |f: FoundView| dirs.contains(f.dir);
    assert forall|i: int| 0 <= i < audio.len() implies within(#[trigger] audio[i]) by {
        assert(audio.map_values(g)[i] == audio[i].dir);
        assert(dirs.contains(audio.map_values(g)[i]));
    }
    filter_all(audio, within);
}

} // verus!
