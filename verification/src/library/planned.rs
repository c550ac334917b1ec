//! Which books are made of the files that were found, told by the files.

use vstd::prelude::*;

use crate::library::scan::{
    audio_files, audiobook_path, folder_key, folder_steps, folders, found_in, import_plan, standalone_path, steps_in,
    FoundView, StepView,
};
use crate::library::tables::{filter_from, filter_pairs};
use crate::naming::sorting_keeps_paths;
use crate::order::{key_less, key_order, lex_order, listing_exists};
use crate::paths::{path_leq, ranks, ranks_tell_paths, sorted_paths};

verus! {

// ---- filters ---------------------------------------------------------------

proof fn filter_counts<T>(s: Seq<T>, p: spec_fn(T) -> bool)
    ensures
        s.filter(p).to_multiset() == s.to_multiset().filter(p),
    decreases s.len(),
{
    reveal(Seq::filter);
    broadcast use vstd::seq_lib::group_to_multiset_ensures;

    if s.len() > 0 {
        let t = s.drop_last();
        filter_counts(t, p);
        assert(t.push(s.last()) =~= s);
        assert(s.to_multiset() =~= t.to_multiset().insert(s.last()));
        if p(s.last()) {
            assert(s.filter(p).to_multiset() =~= t.filter(p).to_multiset().insert(s.last()));
        }
        assert(s.filter(p).to_multiset() =~= s.to_multiset().filter(p));
    } else {
        assert(s.to_multiset() =~= vstd::multiset::Multiset::<T>::empty());
        assert(s.filter(p).to_multiset() =~= s.to_multiset().filter(p));
    }
}

proof fn two_kept<T>(s: Seq<T>, p: spec_fn(T) -> bool)
    ensures
        s.filter(p).len() >= 1 <==> exists|i: int| 0 <= i < s.len() && p(#[trigger] s[i]),
        s.filter(p).len() >= 2 <==> exists|i: int, j: int| 0 <= i < j < s.len() && p(#[trigger] s[i]) && p(#[trigger] s[j]),
    decreases s.len(),
{
    reveal(Seq::filter);
    if s.len() > 0 {
        let t = s.drop_last();
        let n = s.len() - 1;
        two_kept(t, p);
        assert(forall|i: int| 0 <= i < n ==> t[i] == s[i]);
        if t.filter(p).len() >= 1 {
            let i = choose|i: int| 0 <= i < t.len() && p(#[trigger] t[i]);
            assert(p(s[i]));
            if p(s[n]) {
                assert(p(s[i]) && p(s[n]));
            }
        }
        if t.filter(p).len() >= 2 {
            let (i, j) = choose|i: int, j: int| 0 <= i < j < t.len() && p(#[trigger] t[i]) && p(#[trigger] t[j]);
            assert(p(s[i]) && p(s[j]));
        }
        if exists|i: int| 0 <= i < s.len() && p(#[trigger] s[i]) {
            let i = choose|i: int| 0 <= i < s.len() && p(#[trigger] s[i]);
            if i < n {
                assert(p(t[i]));
            }
        }
        if exists|i: int, j: int| 0 <= i < j < s.len() && p(#[trigger] s[i]) && p(#[trigger] s[j]) {
            let (i, j) = choose|i: int, j: int| 0 <= i < j < s.len() && p(#[trigger] s[i]) && p(#[trigger] s[j]);
            assert(p(t[i]));
            if j < n {
                assert(p(t[j]));
            }
        }
    }
}

proof fn filter_twice<T>(s: Seq<T>, a: spec_fn(T) -> bool, b: spec_fn(T) -> bool, c: spec_fn(T) -> bool)
    requires
        forall|x: T| #[trigger] c(x) == (a(x) && b(x)),
    ensures
        s.filter(a).filter(b) == s.filter(c),
    decreases s.len(),
{
    reveal(Seq::filter);
    if s.len() > 0 {
        let t = s.drop_last();
        filter_twice(t, a, b, c);
        assert(c(s.last()) == (a(s.last()) && b(s.last())));
        if a(s.last()) {
            assert(s.filter(a).drop_last() =~= t.filter(a));
        }
    }
}

/// Filtering what rows are mapped to keeps as many as filtering the rows.
pub proof fn filter_mapped<T, U>(s: Seq<T>, f: spec_fn(T) -> U, q: spec_fn(U) -> bool, c: spec_fn(T) -> bool)
    requires
        forall|x: T| #[trigger] c(x) == q(f(x)),
    ensures
        s.map_values(f).filter(q).len() == s.filter(c).len(),
    decreases s.len(),
{
    reveal(Seq::filter);
    if s.len() > 0 {
        let t = s.drop_last();
        filter_mapped(t, f, q, c);
        assert(c(s.last()) == q(f(s.last())));
        assert(s.map_values(f).drop_last() =~= t.map_values(f));
    }
}

// ---- the files of a folder -------------------------------------------------

/// Whether a file that was found is an audiobook file of a folder, and not one
/// that is always a book of its own.
pub open spec fn is_loose(f: FoundView, dir: Seq<char>) -> bool {
    f.dir == dir && audiobook_path(f.path) && !standalone_path(f.path)
}

/// Whether a folder holds two loose files.
pub open spec fn has_two_loose(found: Seq<FoundView>, dir: Seq<char>) -> bool {
    exists|i: int, j: int| 0 <= i < j < found.len() && is_loose(#[trigger] found[i], dir) && is_loose(#[trigger] found[j], dir)
}

proof fn file_in_folder(found: Seq<FoundView>, dir: Seq<char>, path: Seq<char>)
    ensures
        sorted_paths(found_in(found, dir)).contains(path) <==> audiobook_path(path) && exists|i: int|
            0 <= i < found.len() && (#[trigger] found[i]).dir == dir && found[i].path == path,
{
    broadcast use vstd::seq_lib::group_to_multiset_ensures;

    let a = |f: FoundView| audiobook_path(f.path);
    let d = |f: FoundView| f.dir == dir;
    let g = |f: FoundView| f.path;
    let audio = audio_files(found);
    let here = audio.filter(d);
    let files = found_in(found, dir);
    filter_from(found, a);
    filter_from(audio, d);
    sorting_keeps_paths(files);
    let s = sorted_paths(files);
    assert(s.contains(path) == files.contains(path)) by {
        assert(s.contains(path) <==> s.to_multiset().count(path) > 0);
        assert(files.contains(path) <==> files.to_multiset().count(path) > 0);
    }
    if files.contains(path) {
        let k = choose|k: int| 0 <= k < files.len() && files[k] == path;
        assert(files[k] == here[k].path);
        assert(audio.contains(here[k]) && d(here[k]));
        let m = choose|m: int| 0 <= m < audio.len() && audio[m] == here[k];
        assert(found.contains(audio[m]) && a(audio[m]));
        let i = choose|i: int| 0 <= i < found.len() && found[i] == audio[m];
        assert(found[i].dir == dir && found[i].path == path);
    }
    if audiobook_path(path) && exists|i: int| 0 <= i < found.len() && (#[trigger] found[i]).dir == dir && found[i].path == path {
        let i = choose|i: int| 0 <= i < found.len() && (#[trigger] found[i]).dir == dir && found[i].path == path;
        let f = found[i];
        assert(found.contains(f) && a(f));
        assert(audio.contains(f));
        assert(d(f));
        assert(here.contains(f));
        let k = choose|k: int| 0 <= k < here.len() && here[k] == f;
        assert(files[k] == path);
    }
}

proof fn loose_counted(found: Seq<FoundView>, dir: Seq<char>)
    ensures
        (sorted_paths(found_in(found, dir)).filter(|p: Seq<char>| !standalone_path(p)).len() >= 2) == has_two_loose(found, dir),
{
    broadcast use vstd::seq_lib::group_to_multiset_ensures;

    let a = |f: FoundView| audiobook_path(f.path);
    let d = |f: FoundView| f.dir == dir;
    let ad = |f: FoundView| audiobook_path(f.path) && f.dir == dir;
    let g = |f: FoundView| f.path;
    let q = |p: Seq<char>| !standalone_path(p);
    let l = |f: FoundView| !standalone_path(f.path);
    let all = |f: FoundView| is_loose(f, dir);
    let files = found_in(found, dir);
    let s = sorted_paths(files);
    sorting_keeps_paths(files);
    filter_counts(s, q);
    filter_counts(files, q);
    assert(s.filter(q).len() == s.filter(q).to_multiset().len());
    assert(files.filter(q).len() == files.filter(q).to_multiset().len());
    filter_twice(found, a, d, ad);
    filter_mapped(found.filter(ad), g, q, l);
    filter_twice(found, ad, l, all);
    two_kept(found, all);
    if has_two_loose(found, dir) {
        let (i, j) = choose|i: int, j: int|
            0 <= i < j < found.len() && is_loose(#[trigger] found[i], dir) && is_loose(#[trigger] found[j], dir);
        assert(all(found[i]) && all(found[j]));
    }
    if exists|i: int, j: int| 0 <= i < j < found.len() && all(#[trigger] found[i]) && all(#[trigger] found[j]) {
        let (i, j) = choose|i: int, j: int| 0 <= i < j < found.len() && all(#[trigger] found[i]) && all(#[trigger] found[j]);
        assert(is_loose(found[i], dir) && is_loose(found[j], dir));
    }
}

// ---- the books of a folder -------------------------------------------------

/// Whether a file was found in a folder.
pub open spec fn was_found(found: Seq<FoundView>, dir: Seq<char>, path: Seq<char>) -> bool {
    exists|i: int| 0 <= i < found.len() && (#[trigger] found[i]).dir == dir && found[i].path == path
}

/// Whether a step imports a book of a folder: a file that stands alone, or the one
/// loose file of the folder, or all its loose files, two or more, in the order of
/// paths.
pub open spec fn is_book_of(found: Seq<FoundView>, dir: Seq<char>, step: StepView) -> bool {
    match step {
        StepView::Single(p) => {
            &&& was_found(found, dir, p)
            &&& audiobook_path(p)
            &&& standalone_path(p) || !has_two_loose(found, dir)
        },
        StepView::Multi { dir: at, parts } => {
            &&& at == dir
            &&& has_two_loose(found, dir)
            &&& parts.len() >= 2
            &&& forall|p: Seq<char>|
                #[trigger] parts.contains(p) <==> was_found(found, dir, p) && audiobook_path(p) && !standalone_path(p)
            &&& forall|i: int, j: int| 0 <= i < j < parts.len() ==> path_leq(#[trigger] parts[i], #[trigger] parts[j])
        },
    }
}

/// Whether one book of a folder goes before another: it is a file that stands
/// alone, and before another such file in the order of paths.
pub open spec fn in_turn(a: StepView, b: StepView) -> bool {
    match (a, b) {
        (StepView::Single(p), StepView::Single(q)) => standalone_path(p) && (standalone_path(q) ==> path_leq(p, q)),
        (StepView::Single(p), _) => standalone_path(p),
        _ => false,
    }
}

proof fn books_of_folder(found: Seq<FoundView>, dir: Seq<char>)
    ensures
        ({
            let steps = folder_steps(dir, sorted_paths(found_in(found, dir)));
            &&& forall|k: int| 0 <= k < steps.len() ==> is_book_of(found, dir, #[trigger] steps[k])
            &&& forall|p: Seq<char>|
                was_found(found, dir, p) && audiobook_path(p) && (standalone_path(p) || !has_two_loose(found, dir))
                    ==> #[trigger] steps.contains(StepView::Single(p))
            &&& has_two_loose(found, dir) ==> exists|k: int| 0 <= k < steps.len() && (#[trigger] steps[k]) is Multi
            &&& forall|k: int, l: int| 0 <= k < l < steps.len() ==> in_turn(#[trigger] steps[k], #[trigger] steps[l])
        }),
{
    let files = sorted_paths(found_in(found, dir));
    let steps = folder_steps(dir, files);
    let pa = |p: Seq<char>| standalone_path(p);
    let pl = |p: Seq<char>| !standalone_path(p);
    let alone = files.filter(pa);
    let parts = files.filter(pl);
    filter_from(files, pa);
    filter_from(files, pl);
    loose_counted(found, dir);
    sorting_keeps_paths(found_in(found, dir));
    filter_pairs(files, pl, |a: Seq<char>, b: Seq<char>| path_leq(a, b));
    let n = alone.len() as int;
    assert forall|p: Seq<char>|
        #[trigger] parts.contains(p) <==> was_found(found, dir, p) && audiobook_path(p) && !standalone_path(p) by {
        file_in_folder(found, dir, p);
        if parts.contains(p) {
            let i = choose|i: int| 0 <= i < parts.len() && parts[i] == p;
            assert(files.contains(parts[i]) && pl(parts[i]));
        }
        if files.contains(p) && !standalone_path(p) {
            assert(pl(p));
        }
    }
    assert forall|k: int| 0 <= k < steps.len() implies is_book_of(found, dir, #[trigger] steps[k]) by {
        if k < n {
            assert(steps[k] == StepView::Single(alone[k]));
            assert(files.contains(alone[k]) && pa(alone[k]));
            file_in_folder(found, dir, alone[k]);
        } else if parts.len() >= 2 {
            assert(steps[k] == StepView::Multi { dir, parts });
        } else {
            assert(steps[k] == StepView::Single(parts[k - n]));
            assert(files.contains(parts[k - n]) && pl(parts[k - n]));
            file_in_folder(found, dir, parts[k - n]);
        }
    }
    assert forall|p: Seq<char>|
        was_found(found, dir, p) && audiobook_path(p) && (standalone_path(p) || !has_two_loose(found, dir)) implies
        #[trigger] steps.contains(StepView::Single(p)) by {
        file_in_folder(found, dir, p);
        if standalone_path(p) {
            assert(pa(p));
            assert(alone.contains(p));
            let k = choose|k: int| 0 <= k < alone.len() && alone[k] == p;
            assert(steps[k] == StepView::Single(p));
        } else {
            assert(pl(p));
            assert(parts.contains(p));
            let k = choose|k: int| 0 <= k < parts.len() && parts[k] == p;
            assert(steps[n + k] == StepView::Single(p));
        }
    }
    if has_two_loose(found, dir) {
        assert(steps[n] is Multi);
    }
    filter_pairs(files, pa, |a: Seq<char>, b: Seq<char>| path_leq(a, b));
    assert forall|k: int, l: int| 0 <= k < l < steps.len() implies in_turn(#[trigger] steps[k], #[trigger] steps[l]) by {
        assert(k < n);
        assert(steps[k] == StepView::Single(alone[k]));
        assert(pa(alone[k]));
        if l < n {
            assert(steps[l] == StepView::Single(alone[l]));
            assert(path_leq(alone[k], alone[l]));
        } else if parts.len() < 2 {
            assert(steps[l] == StepView::Single(parts[l - n]));
            assert(pl(parts[l - n]));
        }
    }
}

// ---- the folders -----------------------------------------------------------

proof fn folders_listed(found: Seq<FoundView>)
    ensures
        forall|i: int, j: int| 0 <= i < j < folders(found).len() ==> folders(found)[i] != folders(found)[j] && path_leq(
            #[trigger] folders(found)[i],
            #[trigger] folders(found)[j],
        ),
        forall|i: int| 0 <= i < found.len() && audiobook_path((#[trigger] found[i]).path) ==> folders(found).contains(found[i].dir),
{
    let a = |f: FoundView| audiobook_path(f.path);
    let audio = audio_files(found);
    let g = |f: FoundView| f.dir;
    let key = |d: Seq<char>| folder_key(d);
    let rows = audio.map_values(g);
    filter_from(found, a);
    assert forall|i: int, j: int|
        0 <= i < rows.len() && 0 <= j < rows.len() && key(#[trigger] rows[i]) == key(#[trigger] rows[j]) implies rows[i]
        == rows[j] by {
        ranks_tell_paths(rows[i], rows[j]);
    }
    listing_exists(rows, key);
    let dirs = folders(found);
    assert forall|i: int, j: int| 0 <= i < j < dirs.len() implies dirs[i] != dirs[j] && path_leq(
        #[trigger] dirs[i],
        #[trigger] dirs[j],
    ) by {
        assert(key_less(key(dirs[i]), key(dirs[j])));
        key_order(key(dirs[i]), key(dirs[j]));
        lex_order(ranks(dirs[i]), ranks(dirs[j]));
        lex_order(key(dirs[i]).second, key(dirs[j]).second);
        assert(crate::order::lex_less(ranks(dirs[i]), ranks(dirs[j])));
    }
    assert forall|i: int| 0 <= i < found.len() && audiobook_path((#[trigger] found[i]).path) implies dirs.contains(found[i].dir) by {
        assert(found.contains(found[i]) && a(found[i]));
        assert(audio.contains(found[i]));
        let k = choose|k: int| 0 <= k < audio.len() && audio[k] == found[i];
        assert(rows[k] == found[i].dir);
        assert(rows.contains(found[i].dir));
    }
}

/// Where the folders of steps stand in a list of folders: step `k` is a book of
/// `dirs[at[k]]`.
spec fn placed(found: Seq<FoundView>, dirs: Seq<Seq<char>>, steps: Seq<StepView>, at: Seq<int>) -> bool {
    &&& at.len() == steps.len()
    &&& forall|k: int| 0 <= k < at.len() ==> 0 <= #[trigger] at[k] < dirs.len() && is_book_of(found, dirs[at[k]], steps[k])
    &&& forall|k: int, l: int|
        0 <= k < l < at.len() ==> #[trigger] at[k] <= #[trigger] at[l] && (at[k] == at[l] ==> in_turn(steps[k], steps[l]))
    &&& forall|i: int| 0 <= i < dirs.len() && has_two_loose(found, #[trigger] dirs[i]) ==> exists|k: int|
        0 <= k < at.len() && #[trigger] at[k] == i && steps[k] is Multi
    &&& forall|i: int, p: Seq<char>|
        0 <= i < dirs.len() && was_found(found, #[trigger] dirs[i], p) && audiobook_path(p) && (standalone_path(p)
            || !has_two_loose(found, dirs[i])) ==> #[trigger] steps.contains(StepView::Single(p))
}

proof fn steps_placed(dirs: Seq<Seq<char>>, found: Seq<FoundView>) -> (at: Seq<int>)
    ensures
        placed(found, dirs, steps_in(dirs, found), at),
    decreases dirs.len(),
{
    let steps = steps_in(dirs, found);
    if dirs.len() == 0 {
        Seq::empty()
    } else {
        let few = dirs.drop_last();
        let n = few.len() as int;
        let d = dirs.last();
        let before = steps_in(few, found);
        let here = folder_steps(d, sorted_paths(found_in(found, d)));
        let at0 = steps_placed(few, found);
        books_of_folder(found, d);
        let at = at0 + Seq::new(here.len(), |k: int| n);
        let m = before.len() as int;
        assert forall|k: int| 0 <= k < at.len() implies 0 <= #[trigger] at[k] < dirs.len() && is_book_of(
            found,
            dirs[at[k]],
            steps[k],
        ) by {
            if k < m {
                assert(0 <= at0[k] < few.len());
                assert(steps[k] == before[k]);
                assert(dirs[at[k]] == few[at0[k]]);
            } else {
                assert(steps[k] == here[k - m]);
            }
        }
        assert forall|k: int, l: int| 0 <= k < l < at.len() implies #[trigger] at[k] <= #[trigger] at[l] && (at[k] == at[l]
            ==> in_turn(steps[k], steps[l])) by {
            if l < m {
                assert(at0[k] <= at0[l]);
                assert(steps[k] == before[k] && steps[l] == before[l]);
            } else if k < m {
                assert(at0[k] < few.len());
            } else {
                assert(steps[k] == here[k - m] && steps[l] == here[l - m]);
            }
        }
        assert forall|i: int| 0 <= i < dirs.len() && has_two_loose(found, #[trigger] dirs[i]) implies exists|k: int|
            0 <= k < at.len() && #[trigger] at[k] == i && steps[k] is Multi by {
            if i < n {
                assert(few[i] == dirs[i]);
                let k = choose|k: int| 0 <= k < at0.len() && #[trigger] at0[k] == i && before[k] is Multi;
                assert(at[k] == i && steps[k] == before[k]);
            } else {
                let k = choose|k: int| 0 <= k < here.len() && (#[trigger] here[k]) is Multi;
                assert(at[m + k] == i && steps[m + k] == here[k]);
            }
        }
        assert forall|i: int, p: Seq<char>|
            0 <= i < dirs.len() && was_found(found, #[trigger] dirs[i], p) && audiobook_path(p) && (standalone_path(p)
                || !has_two_loose(found, dirs[i])) implies #[trigger] steps.contains(StepView::Single(p)) by {
            if i < n {
                assert(few[i] == dirs[i]);
                assert(before.contains(StepView::Single(p)));
                let k = choose|k: int| 0 <= k < before.len() && before[k] == StepView::Single(p);
                assert(steps[k] == before[k]);
            } else {
                assert(here.contains(StepView::Single(p)));
                let k = choose|k: int| 0 <= k < here.len() && here[k] == StepView::Single(p);
                assert(steps[m + k] == here[k]);
            }
        }
        at
    }
}

/// Every book to import is one of a folder: a file that is always a book of its
/// own, the one loose file of a folder, or all the loose files of a folder with two
/// or more, in the order of paths.
pub proof fn each_step_is_a_book(found: Seq<FoundView>, k: int)
    requires
        0 <= k < import_plan(found).len(),
    ensures
        exists|dir: Seq<char>| is_book_of(found, dir, import_plan(found)[k]),
{
    let at = steps_placed(folders(found), found);
    assert(0 <= at[k] < folders(found).len());
    assert(is_book_of(found, folders(found)[at[k]], import_plan(found)[k]));
}

/// Every audiobook file that was found is imported: on its own if it always is a
/// book of its own, or if no other loose file was found in its folder; otherwise
/// as a part of the folder's book.
pub proof fn each_file_is_in_a_book(found: Seq<FoundView>, i: int)
    requires
        0 <= i < found.len(),
        audiobook_path(found[i].path),
    ensures
        ({
            let f = found[i];
            let others = exists|j: int| 0 <= j < found.len() && j != i && is_loose(#[trigger] found[j], f.dir);
            &&& standalone_path(f.path) ==> import_plan(found).contains(StepView::Single(f.path))
            &&& !standalone_path(f.path) && !others ==> import_plan(found).contains(StepView::Single(f.path))
            &&& !standalone_path(f.path) && others ==> exists|k: int|
                0 <= k < import_plan(found).len() && ((#[trigger] import_plan(found)[k]) matches StepView::Multi { dir, parts }
                    && dir == f.dir && parts.contains(f.path))
        }),
{
    let f = found[i];
    let dirs = folders(found);
    let plan = import_plan(found);
    folders_listed(found);
    let at = steps_placed(dirs, found);
    assert(dirs.contains(f.dir));
    let m = choose|m: int| 0 <= m < dirs.len() && dirs[m] == f.dir;
    assert(was_found(found, dirs[m], f.path));
    let others = exists|j: int| 0 <= j < found.len() && j != i && is_loose(#[trigger] found[j], f.dir);
    if !standalone_path(f.path) {
        assert(is_loose(found[i], f.dir));
        if others {
            let j = choose|j: int| 0 <= j < found.len() && j != i && is_loose(#[trigger] found[j], f.dir);
            if i < j {
                assert(is_loose(found[i], f.dir) && is_loose(found[j], f.dir));
            } else {
                assert(is_loose(found[j], f.dir) && is_loose(found[i], f.dir));
            }
            assert(has_two_loose(found, dirs[m]));
            let k = choose|k: int| 0 <= k < at.len() && #[trigger] at[k] == m && plan[k] is Multi;
            assert(is_book_of(found, dirs[at[k]], plan[k]));
            assert(plan[k]->parts.contains(f.path));
        } else {
            if has_two_loose(found, f.dir) {
                let (a, b) = choose|a: int, b: int|
                    0 <= a < b < found.len() && is_loose(#[trigger] found[a], f.dir) && is_loose(#[trigger] found[b], f.dir);
                assert(a == i && b == i);
            }
            assert(plan.contains(StepView::Single(f.path)));
        }
    } else {
        assert(plan.contains(StepView::Single(f.path)));
    }
}

/// Folders are imported one after the other, in the order of paths. In a folder the
/// files that stand alone come first, in the order of paths, and then what is made
/// of the loose ones.
pub proof fn folders_come_in_order(found: Seq<FoundView>, k: int, l: int)
    requires
        0 <= k < l < import_plan(found).len(),
    ensures
        exists|a: Seq<char>, b: Seq<char>|
            {
                &&& #[trigger] is_book_of(found, a, import_plan(found)[k])
                &&& #[trigger] is_book_of(found, b, import_plan(found)[l])
                &&& path_leq(a, b)
                &&& a == b ==> in_turn(import_plan(found)[k], import_plan(found)[l])
            },
{
    let dirs = folders(found);
    folders_listed(found);
    let at = steps_placed(dirs, found);
    assert(at[k] <= at[l]);
    let a = dirs[at[k]];
    let b = dirs[at[l]];
    assert(is_book_of(found, a, import_plan(found)[k]));
    assert(is_book_of(found, b, import_plan(found)[l]));
    crate::naming::paths_part(a, a);
    if at[k] < at[l] {
        assert(a != b && path_leq(a, b));
    }
}

} // verus!
