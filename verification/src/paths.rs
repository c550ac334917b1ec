//! Paths as texts, by the rules of Unix: pieces between slashes, the name of a
//! file, its stem and extension, and the order of paths.

use vstd::prelude::*;
use vstd::relations::{sorted_by, total_ordering};

use crate::library::views;
use crate::order;
use crate::text;
use crate::text::split_at;

verus! {

/// The pieces of a path that name something: those that are neither empty nor a
/// single dot.
pub open spec fn named_pieces(path: Seq<char>) -> Seq<Seq<char>> {
    split_at(path, '/').filter(|p: Seq<char>| p.len() > 0 && p != seq!['.'])
}

/// The last piece that names something, unless it is the parent's.
pub open spec fn name_of(path: Seq<char>) -> Option<Seq<char>> {
    let pieces = named_pieces(path);
    if pieces.len() == 0 || pieces.last() == seq!['.', '.'] {
        None
    } else {
        Some(pieces.last())
    }
}

/// Where the last dot of a text stands, or -1.
pub open spec fn last_dot(s: Seq<char>) -> int
    decreases s.len(),
{
    if s.len() == 0 {
        -1
    } else if s.last() == '.' {
        s.len() - 1
    } else {
        last_dot(s.drop_last())
    }
}

/// What follows the last dot of a file's name, unless the name begins with it.
pub open spec fn extension_of(path: Seq<char>) -> Option<Seq<char>> {
    match name_of(path) {
        Some(name) => if last_dot(name) > 0 {
            Some(name.skip(last_dot(name) + 1))
        } else {
            None
        },
        None => None,
    }
}

/// A file's name without its extension.
pub open spec fn stem_of(path: Seq<char>) -> Option<Seq<char>> {
    match name_of(path) {
        Some(name) => if last_dot(name) > 0 {
            Some(name.take(last_dot(name)))
        } else {
            Some(name)
        },
        None => None,
    }
}

proof fn last_kept<T>(s: Seq<T>, p: spec_fn(T) -> bool, k: int)
    requires
        -1 <= k < s.len(),
        forall|i: int| k < i < s.len() ==> !p(#[trigger] s[i]),
        k >= 0 ==> p(s[k]),
    ensures
        k >= 0 ==> s.filter(p).len() > 0 && s.filter(p).last() == s[k],
        k < 0 ==> s.filter(p).len() == 0,
    decreases s.len(),
{
    reveal(Seq::filter);
    if s.len() > 0 && k < s.len() - 1 {
        assert forall|i: int| k < i < s.drop_last().len() implies !p(#[trigger] s.drop_last()[i]) by {
            assert(!p(s[i]));
        }
        assert(!p(s[s.len() - 1]));
        last_kept(s.drop_last(), p, k);
    }
}

/// Where the name of the file stands in its path.
fn name_place(cs: &Vec<char>) -> (r: Option<(usize, usize)>)
    ensures
        match r {
            Some((lo, hi)) => lo <= hi <= cs.len() && name_of(cs@) == Some(cs@.subrange(lo as int, hi as int)),
            None => name_of(cs@) is None,
        },
{
    let pieces = text::split(cs, 0, cs.len(), '/');
    assert(cs@.subrange(0, cs@.len() as int) =~= cs@);
    let ghost s = split_at(cs@, '/');
    let ghost p = |p: Seq<char>| p.len() > 0 && p != seq!['.'];
    let mut n = pieces.len();
    while n > 0
        invariant
            n <= pieces.len(),
            s == split_at(cs@, '/'),
            pieces.len() == s.len(),
            p == (|p: Seq<char>| p.len() > 0 && p != seq!['.']),
            forall|i: int|
                #![trigger pieces[i]]
                0 <= i < pieces.len() ==> pieces[i].0 <= pieces[i].1 <= cs.len() && cs@.subrange(
                    pieces[i].0 as int,
                    pieces[i].1 as int,
                ) == s[i],
            forall|i: int| n <= i < s.len() ==> !p(#[trigger] s[i]),
        decreases n,
    {
        n = n - 1;
        let (lo, hi) = pieces[n];
        let ghost piece = cs@.subrange(lo as int, hi as int);
        assert(piece == s[n as int]);
        let len: usize = hi - lo;
        let dot = len == 1 && cs[lo] == '.';
        proof {
            if dot {
                assert(piece =~= seq!['.']);
            } else if len == 1 {
                assert(piece[0] == cs@[lo as int]);
                assert(seq!['.'][0] == '.');
            }
            assert(seq!['.'].len() == 1);
        }
        if len > 0 && !dot {
            proof {
                assert(p(s[n as int]));
                last_kept(s, p, n as int);
                assert(seq!['.', '.'].len() == 2);
                assert(seq!['.', '.'][0] == '.' && seq!['.', '.'][1] == '.');
                if len == 2 {
                    assert(piece[0] == cs@[lo as int] && piece[1] == cs@[lo + 1]);
                    if cs@[lo as int] == '.' && cs@[lo + 1] == '.' {
                        assert(piece =~= seq!['.', '.']);
                    }
                }
            }
            if len == 2 && cs[lo] == '.' && cs[lo + 1] == '.' {
                return None;
            }
            return Some((lo, hi));
        }
    }
    proof {
        last_kept(s, p, -1);
    }
    None
}

/// Where the last dot stands between `lo` and `hi`, if there is one behind `lo`.
fn dot_place(cs: &Vec<char>, lo: usize, hi: usize) -> (r: Option<usize>)
    requires
        lo <= hi <= cs.len(),
    ensures
        ({
            let k = last_dot(cs@.subrange(lo as int, hi as int));
            match r {
                Some(d) => lo < d < hi && k == d - lo && k > 0,
                None => k <= 0,
            }
        }),
{
    let mut n: usize = hi;
    let ghost s = cs@.subrange(lo as int, hi as int);
    while n > lo
        invariant
            lo <= n <= hi <= cs.len(),
            s == cs@.subrange(lo as int, hi as int),
            last_dot(s) == last_dot(cs@.subrange(lo as int, n as int)),
        decreases n,
    {
        let ghost t = cs@.subrange(lo as int, n as int);
        assert(t.drop_last() =~= cs@.subrange(lo as int, n - 1));
        n = n - 1;
        if cs[n] == '.' {
            if n > lo {
                return Some(n);
            } else {
                return None;
            }
        }
    }
    None
}

/// The name of the file that a path leads to.
pub fn file_name(path: &str) -> (r: Option<String>)
    ensures
        crate::library::text_of(r) == name_of(path@),
{
    let cs = text::chars_of(path);
    match name_place(&cs) {
        Some((lo, hi)) => Some(text::string_of(&cs, lo, hi)),
        None => None,
    }
}

/// The extension of the file that a path leads to, with ASCII capitals in lower
/// case.
pub fn ext_of(path: &str) -> (r: Option<String>)
    ensures
        crate::library::text_of(r) == match extension_of(path@) {
            Some(e) => Some(text::ascii_lowered(e)),
            None => None,
        },
{
    let cs = text::chars_of(path);
    match name_place(&cs) {
        Some((lo, hi)) => match dot_place(&cs, lo, hi) {
            Some(d) => {
                let ghost name = cs@.subrange(lo as int, hi as int);
                assert(cs@.subrange(d + 1, hi as int) =~= name.skip(last_dot(name) + 1));
                Some(text::lower_string_of(&cs, d + 1, hi))
            },
            None => None,
        },
        None => None,
    }
}

/// The name of the file that a path leads to, without its extension.
pub fn file_stem(path: &str) -> (r: Option<String>)
    ensures
        crate::library::text_of(r) == stem_of(path@),
{
    let cs = text::chars_of(path);
    match name_place(&cs) {
        Some((lo, hi)) => match dot_place(&cs, lo, hi) {
            Some(d) => {
                let ghost name = cs@.subrange(lo as int, hi as int);
                assert(cs@.subrange(lo as int, d as int) =~= name.take(last_dot(name)));
                Some(text::string_of(&cs, lo, d))
            },
            None => Some(text::string_of(&cs, lo, hi)),
        },
        None => None,
    }
}

// ---- the order of paths ----------------------------------------------------

/// What a character of a path counts in the order: a slash comes before all
/// others, so that what is in a folder comes before what only begins alike.
pub open spec fn rank(c: char) -> int {
    if c == '/' {
        0
    } else {
        c as int + 1
    }
}

/// A path as it counts in the order.
pub open spec fn ranks(path: Seq<char>) -> Seq<int> {
    path.map_values(|c: char| rank(c))
}

/// Whether `a` stands before `b`, or is `b`.
pub open spec fn path_leq(a: Seq<char>, b: Seq<char>) -> bool {
    !order::lex_less(ranks(b), ranks(a))
}

/// The order of paths: piece by piece, each as its code points.
pub open spec fn path_order() -> spec_fn(Seq<char>, Seq<char>) -> bool {
    |a: Seq<char>, b: Seq<char>| path_leq(a, b)
}

/// The paths in their order.
pub open spec fn sorted_paths(paths: Seq<Seq<char>>) -> Seq<Seq<char>> {
    paths.sort_by(path_order())
}

proof fn rank_tells_char(a: char, b: char)
    requires
        rank(a) == rank(b),
    ensures
        a == b,
{
}

/// Paths that count the same are the same.
pub proof fn ranks_tell_paths(a: Seq<char>, b: Seq<char>)
    requires
        ranks(a) == ranks(b),
    ensures
        a == b,
{
    assert(ranks(a).len() == a.len() && ranks(b).len() == b.len());
    assert forall|i: int| 0 <= i < a.len() implies a[i] == b[i] by {
        assert(ranks(a)[i] == rank(a[i]));
        assert(ranks(b)[i] == rank(b[i]));
        rank_tells_char(a[i], b[i]);
    }
    assert(a =~= b);
}

/// Every two paths are in order one way, and only equal ones are both ways.
pub proof fn path_order_is_total()
    ensures
        total_ordering(path_order()),
{
    let r = path_order();
    assert forall|x: Seq<char>| #[trigger] r(x, x) by {
        order::lex_order(ranks(x), ranks(x));
    }
    assert forall|x: Seq<char>, y: Seq<char>| #[trigger] r(x, y) && #[trigger] r(y, x) implies x == y by {
        order::lex_order(ranks(x), ranks(y));
        ranks_tell_paths(x, y);
    }
    assert forall|x: Seq<char>, y: Seq<char>| #[trigger] r(x, y) || #[trigger] r(y, x) by {
        order::lex_order(ranks(x), ranks(y));
    }
    assert forall|x: Seq<char>, y: Seq<char>, z: Seq<char>| #[trigger] r(x, y) && #[trigger] r(y, z) implies r(x, z) by {
        order::lex_order(ranks(x), ranks(y));
        order::lex_order(ranks(y), ranks(z));
        order::lex_order(ranks(x), ranks(z));
        if order::lex_less(ranks(z), ranks(x)) {
            if ranks(x) == ranks(y) {
            } else if ranks(y) == ranks(z) {
            } else {
                order::lex_transitive(ranks(z), ranks(x), ranks(y));
            }
        }
    }
}

fn rank_of(c: char) -> (r: i128)
    ensures
        r == rank(c),
{
    if c == '/' {
        0
    } else {
        c as u32 as i128 + 1
    }
}

/// A path as it counts in the order.
pub fn ranks_of(path: &str) -> (r: Vec<i128>)
    ensures
        order::ints(r@) == ranks(path@),
{
    let cs = text::chars_of(path);
    let mut out: Vec<i128> = Vec::new();
    let mut i: usize = 0;
    while i < cs.len()
        invariant
            i <= cs.len(),
            out.len() == i,
            forall|k: int| 0 <= k < i ==> #[trigger] out@[k] == rank(cs@[k]),
        decreases cs.len() - i,
    {
        out.push(rank_of(cs[i]));
        i = i + 1;
    }
    assert(order::ints(out@) =~= ranks(path@));
    out
}

/// Whether `a` stands before `b`, or is `b`.
pub fn path_at_most(a: &str, b: &str) -> (r: bool)
    ensures
        r == path_leq(a@, b@),
{
    !order::row_first(&ranks_of(b), &ranks_of(a))
}

/// The paths in their order.
pub fn sort_paths(paths: &Vec<String>) -> (r: Vec<String>)
    ensures
        views(r@) == sorted_paths(views(paths@)),
{
    let mut out: Vec<String> = Vec::new();
    let mut n: usize = 0;
    let ghost all = views(paths@);
    assert(views(out@) =~= all.take(0));
    while n < paths.len()
        invariant
            n <= paths.len(),
            all == views(paths@),
            sorted_by(views(out@), path_order()),
            views(out@).to_multiset() == all.take(n as int).to_multiset(),
        decreases paths.len() - n,
    {
        let mut at: usize = 0;
        while at < out.len() && path_at_most(out[at].as_str(), paths[n].as_str())
            invariant
                n < paths.len(),
                at <= out.len(),
                forall|i: int| 0 <= i < at ==> path_leq((#[trigger] out@[i])@, paths@[n as int]@),
            decreases out.len() - at,
        {
            at = at + 1;
        }
        let ghost before = views(out@);
        let ghost x = paths@[n as int]@;
        out.insert(at, paths[n].clone());
        proof {
            let after = views(out@);
            assert(after =~= before.insert(at as int, x));
            path_order_is_total();
            let r = path_order();
            assert forall|i: int, j: int| 0 <= i < j < after.len() implies #[trigger] r(after[i], after[j]) by {
                let i0 = if i < at { i } else { i - 1 };
                let j0 = if j < at { j } else { j - 1 };
                if i != at && j != at {
                    assert(r(before[i0], before[j0]));
                } else if j == at {
                    assert(before[i0] == out@[i]@);
                } else {
                    assert(!r(before[at as int], x));
                    assert(r(x, before[at as int]));
                    if at < j0 {
                        assert(r(before[at as int], before[j0]));
                    }
                }
            }
            vstd::seq_lib::to_multiset_insert(before, at as int, x);
            vstd::seq_lib::to_multiset_build(all.take(n as int), x);
            assert(all.take(n + 1) =~= all.take(n as int).push(x));
        }
        n = n + 1;
    }
    proof {
        assert(all.take(n as int) =~= all);
        path_order_is_total();
        all.lemma_sort_by_ensures(path_order());
        vstd::seq_lib::lemma_sorted_unique(views(out@), sorted_paths(all), path_order());
    }
    out
}

} // verus!
