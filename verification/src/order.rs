//! Listing rows in the order of their sort keys, and the order of texts.

use vstd::prelude::*;

use crate::text;

verus! {

/// What rows are ordered by: two rows of numbers, compared one after the other
/// as words are, and a number for the last decision.
pub struct Key {
    pub first: Vec<i128>,
    pub second: Vec<i128>,
    pub last: i128,
}

/// The numbers of a [`Key`].
#[verifier::ext_equal]
pub struct KeyView {
    pub first: Seq<int>,
    pub second: Seq<int>,
    pub last: int,
}

/// The numbers of a row.
pub open spec fn ints(s: Seq<i128>) -> Seq<int> {
    s.map_values(|x: i128| x as int)
}

impl View for Key {
    type V = KeyView;

    open spec fn view(&self) -> KeyView {
        KeyView { first: ints(self.first@), second: ints(self.second@), last: self.last as int }
    }
}

/// Whether `a` stands before `b` in a dictionary.
pub open spec fn lex_less(a: Seq<int>, b: Seq<int>) -> bool
    decreases a.len(),
{
    if b.len() == 0 {
        false
    } else if a.len() == 0 {
        true
    } else if a[0] != b[0] {
        a[0] < b[0]
    } else {
        lex_less(a.drop_first(), b.drop_first())
    }
}

/// Whether a row with key `a` comes before one with key `b`.
pub open spec fn key_less(a: KeyView, b: KeyView) -> bool {
    ||| lex_less(a.first, b.first)
    ||| a.first == b.first && lex_less(a.second, b.second)
    ||| a.first == b.first && a.second == b.second && a.last < b.last
}

/// Of two different rows of numbers one comes first, and only one.
pub proof fn lex_order(a: Seq<int>, b: Seq<int>)
    ensures
        !(lex_less(a, b) && lex_less(b, a)),
        a == b ==> !lex_less(a, b),
        a != b ==> lex_less(a, b) || lex_less(b, a),
    decreases a.len(),
{
    if a.len() > 0 && b.len() > 0 {
        lex_order(a.drop_first(), b.drop_first());
        if a[0] == b[0] && a.drop_first() == b.drop_first() {
            assert(seq![a[0]] + a.drop_first() =~= a);
            assert(seq![b[0]] + b.drop_first() =~= b);
        }
    } else if a.len() == 0 && b.len() == 0 {
        assert(a =~= b);
    }
}

/// Standing first carries over.
pub proof fn lex_transitive(a: Seq<int>, b: Seq<int>, c: Seq<int>)
    requires
        lex_less(a, b),
        lex_less(b, c),
    ensures
        lex_less(a, c),
    decreases a.len(),
{
    if a.len() > 0 && a[0] == b[0] && b[0] == c[0] {
        lex_transitive(a.drop_first(), b.drop_first(), c.drop_first());
    }
}

/// Of two different keys one comes first, and only one.
pub proof fn key_order(a: KeyView, b: KeyView)
    ensures
        !(key_less(a, b) && key_less(b, a)),
        a == b ==> !key_less(a, b),
        a != b ==> key_less(a, b) || key_less(b, a),
{
    lex_order(a.first, b.first);
    lex_order(a.second, b.second);
}

/// Coming first carries over.
pub proof fn key_transitive(a: KeyView, b: KeyView, c: KeyView)
    requires
        key_less(a, b),
        key_less(b, c),
    ensures
        key_less(a, c),
{
    if lex_less(a.first, b.first) && lex_less(b.first, c.first) {
        lex_transitive(a.first, b.first, c.first);
    }
    if lex_less(a.second, b.second) && lex_less(b.second, c.second) {
        lex_transitive(a.second, b.second, c.second);
    }
}

/// How two rows of numbers compare: below zero, zero or above, as `a` comes
/// first, both are the same or `b` comes first.
fn compare_rows(a: &Vec<i128>, b: &Vec<i128>) -> (r: i32)
    ensures
        r < 0 <==> lex_less(ints(a@), ints(b@)),
        r == 0 <==> ints(a@) == ints(b@),
        r > 0 <==> lex_less(ints(b@), ints(a@)),
{
    let ghost x = ints(a@);
    let ghost y = ints(b@);
    let mut i: usize = 0;
    assert(x.skip(0) =~= x);
    assert(y.skip(0) =~= y);
    proof {
        lex_order(x, y);
    }
    while i < a.len() && i < b.len()
        invariant
            i <= a.len(),
            i <= b.len(),
            x == ints(a@),
            y == ints(b@),
            x.take(i as int) == y.take(i as int),
            lex_less(x, y) == lex_less(x.skip(i as int), y.skip(i as int)),
            lex_less(y, x) == lex_less(y.skip(i as int), x.skip(i as int)),
            !(lex_less(x, y) && lex_less(y, x)),
            x == y ==> !lex_less(x, y),
        decreases a.len() - i,
    {
        assert(x[i as int] == a@[i as int] as int);
        assert(y[i as int] == b@[i as int] as int);
        assert(x.skip(i as int)[0] == x[i as int]);
        assert(y.skip(i as int)[0] == y[i as int]);
        if a[i] < b[i] {
            assert(lex_less(x, y));
            return -1;
        }
        if a[i] > b[i] {
            assert(lex_less(y, x));
            return 1;
        }
        assert(x.skip(i as int).drop_first() =~= x.skip(i + 1));
        assert(y.skip(i as int).drop_first() =~= y.skip(i + 1));
        assert(x.take(i + 1) =~= x.take(i as int).push(x[i as int]));
        assert(y.take(i + 1) =~= y.take(i as int).push(y[i as int]));
        i = i + 1;
    }
    proof {
        lex_order(x, y);
    }
    if i < b.len() {
        assert(x.skip(i as int).len() == 0);
        -1
    } else if i < a.len() {
        1
    } else {
        assert(x.take(i as int) =~= x);
        assert(y.take(i as int) =~= y);
        0
    }
}

/// Whether `a` stands before `b` in a dictionary.
pub fn row_first(a: &Vec<i128>, b: &Vec<i128>) -> (r: bool)
    ensures
        r == lex_less(ints(a@), ints(b@)),
{
    compare_rows(a, b) < 0
}

/// Whether a row with key `a` comes before one with key `b`.
pub fn comes_first(a: &Key, b: &Key) -> (r: bool)
    ensures
        r == key_less(a@, b@),
{
    let c: i32 = compare_rows(&a.first, &b.first);
    proof {
        lex_order(a@.first, b@.first);
        lex_order(a@.second, b@.second);
    }
    if c != 0 {
        c < 0
    } else {
        let c: i32 = compare_rows(&a.second, &b.second);
        if c != 0 {
            c < 0
        } else {
            a.last < b.last
        }
    }
}

// ---- texts -----------------------------------------------------------------

/// A text as it counts in the order of code points.
pub open spec fn codes(s: Seq<char>) -> Seq<int> {
    s.map_values(|c: char| c as int)
}

/// Whether `a` stands before `b` in the order of code points.
pub open spec fn text_before(a: Seq<char>, b: Seq<char>) -> bool {
    lex_less(codes(a), codes(b))
}

/// The code point of a character.
pub fn code_of(c: char) -> (r: i128)
    ensures
        r == c as int,
{
    c as u32 as i128
}

/// The code points of a text.
pub fn codes_of(s: &str) -> (r: Vec<i128>)
    ensures
        ints(r@) == codes(s@),
{
    let cs = text::chars_of(s);
    let mut out: Vec<i128> = Vec::new();
    let mut i: usize = 0;
    while i < cs.len()
        invariant
            i <= cs.len(),
            out.len() == i,
            forall|k: int| 0 <= k < i ==> #[trigger] out@[k] == cs@[k] as int,
        decreases cs.len() - i,
    {
        out.push(code_of(cs[i]));
        i = i + 1;
    }
    assert(ints(out@) =~= codes(s@));
    out
}

/// Whether `a` stands before `b` in the order of code points.
pub fn text_first(a: &str, b: &str) -> (r: bool)
    ensures
        r == text_before(a@, b@),
{
    row_first(&codes_of(a), &codes_of(b))
}

/// Of two different texts one stands first, and only one.
pub proof fn text_order(a: Seq<char>, b: Seq<char>)
    ensures
        !(text_before(a, b) && text_before(b, a)),
        a == b ==> !text_before(a, b),
        a != b ==> text_before(a, b) || text_before(b, a),
{
    lex_order(codes(a), codes(b));
    if codes(a) == codes(b) {
        assert(a.len() == b.len());
        assert forall|i: int| 0 <= i < a.len() implies a[i] == b[i] by {
            assert(codes(a)[i] == a[i] as int);
            assert(codes(b)[i] == b[i] as int);
        }
        assert(a =~= b);
    }
}

// ---- listings --------------------------------------------------------------

/// Whether `order` names each of the first `n` places once.
pub open spec fn is_arrangement(order: Seq<usize>, n: int) -> bool {
    &&& order.len() == n
    &&& forall|i: int| 0 <= i < order.len() ==> #[trigger] order[i] < n
    &&& forall|i: int, j: int| 0 <= i < j < order.len() ==> order[i] != order[j]
    &&& forall|k: usize| k < n ==> #[trigger] order.contains(k)
}

/// The places of the keys, in the order of the keys.
pub fn arrange(keys: &Vec<Key>) -> (order: Vec<usize>)
    ensures
        is_arrangement(order@, keys.len() as int),
        forall|i: int, j: int|
            0 <= i < j < order.len() ==> !key_less(keys[order[j] as int]@, keys[order[i] as int]@),
{
    let mut order: Vec<usize> = Vec::new();
    let mut n: usize = 0;
    while n < keys.len()
        invariant
            n <= keys.len(),
            is_arrangement(order@, n as int),
            forall|i: int, j: int|
                0 <= i < j < order.len() ==> !key_less(keys[order[j] as int]@, keys[order[i] as int]@),
        decreases keys.len() - n,
    {
        let mut at: usize = 0;
        while at < order.len() && !comes_first(&keys[n], &keys[order[at]])
            invariant
                n < keys.len(),
                at <= order.len(),
                is_arrangement(order@, n as int),
                forall|i: int| 0 <= i < at ==> !key_less(keys[n as int]@, keys[order[i] as int]@),
            decreases order.len() - at,
        {
            at = at + 1;
        }
        let ghost before = order@;
        order.insert(at, n);
        proof {
            let after = order@;
            assert forall|k: usize| k < n + 1 implies #[trigger] after.contains(k) by {
                if k == n {
                    assert(after[at as int] == n);
                } else {
                    assert(before.contains(k));
                    let i = choose|i: int| 0 <= i < before.len() && before[i] == k;
                    if i < at {
                        assert(after[i] == k);
                    } else {
                        assert(after[i + 1] == k);
                    }
                }
            }
            assert forall|i: int, j: int| 0 <= i < j < after.len() implies !key_less(
                keys[after[j] as int]@,
                keys[after[i] as int]@,
            ) by {
                if j == at {
                } else if i == at {
                    // The key at the insertion point comes after the new one,
                    // and nothing behind that point comes before it.
                    let p = keys[before[at as int] as int]@;
                    let q = keys[before[j - 1] as int]@;
                    let new = keys[n as int]@;
                    if key_less(q, new) {
                        assert(key_less(new, p));
                        key_transitive(q, new, p);
                        key_order(q, p);
                        assert(at < j - 1);
                    }
                } else {
                    let i0 = if i < at { i } else { i - 1 };
                    let j0 = if j < at { j } else { j - 1 };
                    assert(after[i] == before[i0]);
                    assert(after[j] == before[j0]);
                }
            }
        }
        n = n + 1;
    }
    order
}

/// Whether `s` holds the rows in the order of their keys, each once.
pub open spec fn is_listing<T>(rows: Seq<T>, key: spec_fn(T) -> KeyView, s: Seq<T>) -> bool {
    &&& forall|i: int, j: int| 0 <= i < j < s.len() ==> key_less(key(#[trigger] s[i]), key(#[trigger] s[j]))
    &&& forall|i: int| 0 <= i < s.len() ==> rows.contains(#[trigger] s[i])
    &&& forall|i: int| 0 <= i < rows.len() ==> s.contains(#[trigger] rows[i])
}

/// The rows in the order of their keys.
pub open spec fn listing<T>(rows: Seq<T>, key: spec_fn(T) -> KeyView) -> Seq<T> {
    choose|s: Seq<T>| is_listing(rows, key, s)
}

proof fn sorted_equal<T>(key: spec_fn(T) -> KeyView, s: Seq<T>, t: Seq<T>)
    requires
        forall|i: int, j: int| 0 <= i < j < s.len() ==> key_less(key(#[trigger] s[i]), key(#[trigger] s[j])),
        forall|i: int, j: int| 0 <= i < j < t.len() ==> key_less(key(#[trigger] t[i]), key(#[trigger] t[j])),
        forall|i: int| 0 <= i < s.len() ==> t.contains(#[trigger] s[i]),
        forall|i: int| 0 <= i < t.len() ==> s.contains(#[trigger] t[i]),
    ensures
        s == t,
    decreases s.len(),
{
    if s.len() == 0 {
        if t.len() > 0 {
            assert(s.contains(t[0]));
        }
        assert(s =~= t);
    } else {
        assert(t.contains(s[0]));
        let k = choose|k: int| 0 <= k < t.len() && t[k] == s[0];
        assert(s.contains(t[0]));
        let m = choose|m: int| 0 <= m < s.len() && s[m] == t[0];
        if k > 0 {
            assert(key_less(key(t[0]), key(t[k])));
            key_order(key(t[0]), key(t[k]));
            if m > 0 {
                assert(key_less(key(s[0]), key(s[m])));
            }
        }
        assert(s[0] == t[0]);
        let s1 = s.drop_first();
        let t1 = t.drop_first();
        assert forall|i: int| 0 <= i < s1.len() implies t1.contains(#[trigger] s1[i]) by {
            assert(s1[i] == s[i + 1]);
            assert(t.contains(s[i + 1]));
            let j = choose|j: int| 0 <= j < t.len() && t[j] == s[i + 1];
            assert(key_less(key(s[0]), key(s[i + 1])));
            key_order(key(s[0]), key(s[i + 1]));
            assert(j > 0);
            assert(t1[j - 1] == s1[i]);
        }
        assert forall|i: int| 0 <= i < t1.len() implies s1.contains(#[trigger] t1[i]) by {
            assert(t1[i] == t[i + 1]);
            assert(s.contains(t[i + 1]));
            let j = choose|j: int| 0 <= j < s.len() && s[j] == t[i + 1];
            assert(key_less(key(t[0]), key(t[i + 1])));
            key_order(key(t[0]), key(t[i + 1]));
            assert(j > 0);
            assert(s1[j - 1] == t1[i]);
        }
        sorted_equal(key, s1, t1);
        assert(s =~= seq![s[0]] + s1);
        assert(t =~= seq![t[0]] + t1);
    }
}

/// There is one order in which rows can be listed.
pub proof fn listing_is<T>(rows: Seq<T>, key: spec_fn(T) -> KeyView, s: Seq<T>)
    requires
        is_listing(rows, key, s),
    ensures
        listing(rows, key) == s,
        s.len() == rows.len() || exists|i: int, j: int| 0 <= i < j < rows.len() && rows[i] == rows[j],
{
    let t = listing(rows, key);
    assert(is_listing(rows, key, t));
    assert forall|i: int| 0 <= i < s.len() implies t.contains(#[trigger] s[i]) by {
        assert(rows.contains(s[i]));
        let k = choose|k: int| 0 <= k < rows.len() && rows[k] == s[i];
        assert(t.contains(rows[k]));
    }
    assert forall|i: int| 0 <= i < t.len() implies s.contains(#[trigger] t[i]) by {
        assert(rows.contains(t[i]));
        let k = choose|k: int| 0 <= k < rows.len() && rows[k] == t[i];
        assert(s.contains(rows[k]));
    }
    sorted_equal(key, t, s);
    if forall|i: int, j: int| 0 <= i < j < rows.len() ==> rows[i] != rows[j] {
        assert forall|i: int, j: int| 0 <= i < s.len() && 0 <= j < s.len() && i != j implies s[i] != s[j] by {
            if i < j {
                key_order(key(s[i]), key(s[j]));
            } else {
                key_order(key(s[j]), key(s[i]));
            }
        }
        s.unique_seq_to_set();
        rows.unique_seq_to_set();
        assert(s.to_set() =~= rows.to_set()) by {
            assert forall|x: T| rows.to_set().contains(x) implies s.to_set().contains(x) by {
                let k = choose|k: int| 0 <= k < rows.len() && rows[k] == x;
                assert(s.contains(rows[k]));
            }
        }
    }
}

/// Rows whose keys differ, taken in the order of an arrangement by those keys,
/// are listed.
pub proof fn arranged_is_listing<T>(rows: Seq<T>, key: spec_fn(T) -> KeyView, order: Seq<usize>, s: Seq<T>)
    requires
        is_arrangement(order, rows.len() as int),
        forall|i: int, j: int|
            0 <= i < j < order.len() ==> !key_less(key(rows[order[j] as int]), key(rows[order[i] as int])),
        forall|i: int, j: int| 0 <= i < j < rows.len() ==> key(#[trigger] rows[i]) != key(#[trigger] rows[j]),
        rows.len() <= usize::MAX,
        s.len() == rows.len(),
        forall|i: int| 0 <= i < s.len() ==> s[i] == rows[order[i] as int],
    ensures
        is_listing(rows, key, s),
        listing(rows, key) == s,
{
    assert forall|i: int, j: int| 0 <= i < j < s.len() implies key_less(key(#[trigger] s[i]), key(#[trigger] s[j])) by {
        let a = order[i] as int;
        let b = order[j] as int;
        assert(a != b);
        if a < b {
            assert(key(rows[a]) != key(rows[b]));
        } else {
            assert(key(rows[b]) != key(rows[a]));
        }
        key_order(key(rows[a]), key(rows[b]));
    }
    assert forall|i: int| 0 <= i < s.len() implies rows.contains(#[trigger] s[i]) by {
        assert(rows[order[i] as int] == s[i]);
    }
    assert forall|i: int| 0 <= i < rows.len() implies s.contains(#[trigger] rows[i]) by {
        assert(order.contains(i as usize));
        let k = choose|k: int| 0 <= k < order.len() && order[k] == i as usize;
        assert(s[k] == rows[i]);
    }
    listing_is(rows, key, s);
}

/// A row that is listed already stays where it is.
pub proof fn listed_again<T>(rows: Seq<T>, key: spec_fn(T) -> KeyView, s: Seq<T>, x: T)
    requires
        is_listing(rows, key, s),
        s.contains(x),
    ensures
        is_listing(rows.push(x), key, s),
{
    let rows1 = rows.push(x);
    assert forall|i: int| 0 <= i < s.len() implies rows1.contains(#[trigger] s[i]) by {
        assert(rows.contains(s[i]));
        let k = choose|k: int| 0 <= k < rows.len() && rows[k] == s[i];
        assert(rows1[k] == s[i]);
    }
    assert forall|i: int| 0 <= i < rows1.len() implies s.contains(#[trigger] rows1[i]) by {
        if i < rows.len() {
            assert(s.contains(rows[i]));
        }
    }
}

/// A new row is listed behind those that come before it and in front of the
/// others.
pub proof fn listed_new<T>(rows: Seq<T>, key: spec_fn(T) -> KeyView, s: Seq<T>, at: int, x: T)
    requires
        is_listing(rows, key, s),
        0 <= at <= s.len(),
        forall|i: int| 0 <= i < at ==> key_less(key(#[trigger] s[i]), key(x)),
        at < s.len() ==> key_less(key(x), key(s[at])),
    ensures
        is_listing(rows.push(x), key, s.insert(at, x)),
{
    let rows1 = rows.push(x);
    let t = s.insert(at, x);
    assert forall|i: int, j: int| 0 <= i < j < t.len() implies key_less(key(#[trigger] t[i]), key(#[trigger] t[j])) by {
        if i != at && j != at {
            let i0 = if i < at { i } else { i - 1 };
            let j0 = if j < at { j } else { j - 1 };
            assert(t[i] == s[i0] && t[j] == s[j0]);
            assert(key_less(key(s[i0]), key(s[j0])));
        } else if j == at {
            assert(t[i] == s[i]);
        } else {
            assert(t[j] == s[j - 1]);
            if at < j - 1 {
                assert(key_less(key(s[at]), key(s[j - 1])));
                key_transitive(key(x), key(s[at]), key(s[j - 1]));
            }
        }
    }
    assert forall|i: int| 0 <= i < t.len() implies rows1.contains(#[trigger] t[i]) by {
        if i == at {
            assert(rows1[rows.len() as int] == x);
        } else {
            let i0 = if i < at { i } else { i - 1 };
            assert(t[i] == s[i0]);
            assert(rows.contains(s[i0]));
            let k = choose|k: int| 0 <= k < rows.len() && rows[k] == s[i0];
            assert(rows1[k] == t[i]);
        }
    }
    assert forall|i: int| 0 <= i < rows1.len() implies t.contains(#[trigger] rows1[i]) by {
        if i < rows.len() {
            assert(s.contains(rows[i]));
            let k = choose|k: int| 0 <= k < s.len() && s[k] == rows[i];
            let k1 = if k < at { k } else { k + 1 };
            assert(t[k1] == rows1[i]);
        } else {
            assert(t[at] == x);
        }
    }
}

proof fn place_for<T>(key: spec_fn(T) -> KeyView, s: Seq<T>, x: T, k: int) -> (at: int)
    requires
        0 <= k <= s.len(),
        forall|i: int| 0 <= i < k ==> key_less(key(#[trigger] s[i]), key(x)),
    ensures
        k <= at <= s.len(),
        forall|i: int| 0 <= i < at ==> key_less(key(#[trigger] s[i]), key(x)),
        at < s.len() ==> !key_less(key(s[at]), key(x)),
    decreases s.len() - k,
{
    if k < s.len() && key_less(key(s[k]), key(x)) {
        place_for(key, s, x, k + 1)
    } else {
        k
    }
}

/// Rows that their keys tell apart can be listed.
pub proof fn listing_exists<T>(rows: Seq<T>, key: spec_fn(T) -> KeyView)
    requires
        forall|i: int, j: int|
            0 <= i < rows.len() && 0 <= j < rows.len() && key(#[trigger] rows[i]) == key(#[trigger] rows[j]) ==> rows[i]
                == rows[j],
    ensures
        is_listing(rows, key, listing(rows, key)),
    decreases rows.len(),
{
    if rows.len() == 0 {
        assert(is_listing(rows, key, Seq::empty()));
    } else {
        let few = rows.drop_last();
        let x = rows.last();
        assert forall|i: int, j: int|
            0 <= i < few.len() && 0 <= j < few.len() && key(#[trigger] few[i]) == key(#[trigger] few[j]) implies few[i]
            == few[j] by {
            assert(few[i] == rows[i] && few[j] == rows[j]);
        }
        listing_exists(few, key);
        let before = listing(few, key);
        assert(few.push(x) =~= rows);
        if before.contains(x) {
            listed_again(few, key, before, x);
        } else {
            let at = place_for(key, before, x, 0);
            if at < before.len() {
                key_order(key(before[at]), key(x));
                assert(few.contains(before[at]));
                let k = choose|k: int| 0 <= k < few.len() && few[k] == before[at];
                assert(rows[k] == before[at] && rows[rows.len() - 1] == x);
                assert(key(before[at]) != key(x));
            }
            listed_new(few, key, before, at, x);
        }
    }
}

} // verus!
