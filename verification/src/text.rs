//! Text as sequences of characters: copying, trimming, splitting, decimal
//! numbers and letter case.

use vstd::prelude::*;

verus! {

/// `String::push` appends one character.
pub assume_specification[ String::push ](s: &mut String, c: char)
    ensures
        final(s)@ == old(s)@.push(c),
;

/// The characters of a string, in order.
pub fn chars_of(s: &str) -> (r: Vec<char>)
    ensures
        r@ == s@,
{
    let mut out: Vec<char> = Vec::new();
    for c in it: s.chars()
        invariant
            it.seq() == s@,
            out@ == s@.take(it.index()),
    {
        out.push(c);
        assert(s@.take(it.index() + 1) =~= s@.take(it.index()).push(c));
    }
    assert(s@.take(s@.len() as int) =~= s@);
    out
}

/// The string made of the characters from `lo` up to `hi`.
pub fn string_of(cs: &Vec<char>, lo: usize, hi: usize) -> (r: String)
    requires
        lo <= hi <= cs.len(),
    ensures
        r@ == cs@.subrange(lo as int, hi as int),
{
    let mut out = String::new();
    let mut i: usize = lo;
    assert(out@ =~= cs@.subrange(lo as int, lo as int));
    while i < hi
        invariant
            lo <= i <= hi <= cs.len(),
            out@ == cs@.subrange(lo as int, i as int),
        decreases hi - i,
    {
        out.push(cs[i]);
        assert(cs@.subrange(lo as int, i + 1) =~= cs@.subrange(lo as int, i as int).push(cs@[i as int]));
        i = i + 1;
    }
    out
}

/// Whether two strings hold the same characters.
pub fn same(a: &str, b: &str) -> (r: bool)
    ensures
        r == (a@ == b@),
{
    a.to_owned() == b.to_owned()
}

// ---- decimal numbers -------------------------------------------------------

/// The character that stands for a decimal digit.
pub open spec fn digit(d: nat) -> char {
    (48 + d) as char
}

/// The decimal digits of `n`, without leading zeros.
pub open spec fn decimal(n: nat) -> Seq<char>
    decreases n,
{
    if n < 10 {
        seq![digit(n)]
    } else {
        decimal(n / 10).push(digit(n % 10))
    }
}

/// `n` copies of `c`.
pub open spec fn repeated(c: char, n: nat) -> Seq<char> {
    Seq::new(n, |i: int| c)
}

/// `s` with `fill` put in front of it until it has at least `width` characters.
pub open spec fn left_padded(s: Seq<char>, fill: char, width: nat) -> Seq<char> {
    if s.len() >= width {
        s
    } else {
        repeated(fill, (width - s.len()) as nat) + s
    }
}

/// `n` in decimal, with a sign in front where it is negative.
pub open spec fn signed_decimal(n: int) -> Seq<char> {
    if n < 0 {
        seq!['-'] + decimal((-n) as nat)
    } else {
        decimal(n as nat)
    }
}

/// `n` in decimal, filled with zeros between sign and digits up to `width`
/// characters, the sign among them.
pub open spec fn zero_padded(n: int, width: nat) -> Seq<char> {
    if n < 0 {
        seq!['-'] + left_padded(decimal((-n) as nat), '0', if width >= 1 { (width - 1) as nat } else { 0 })
    } else {
        left_padded(decimal(n as nat), '0', width)
    }
}

fn digit_char(d: u64) -> (c: char)
    requires
        d < 10,
    ensures
        c == digit(d as nat),
{
    (48u8 + d as u8) as char
}

/// Appends the decimal digits of `n`.
pub fn push_decimal(out: &mut String, n: u64)
    ensures
        final(out)@ == old(out)@ + decimal(n as nat),
    decreases n,
{
    if n < 10 {
        out.push(digit_char(n));
        assert(out@ =~= old(out)@ + decimal(n as nat));
    } else {
        push_decimal(out, n / 10);
        out.push(digit_char(n % 10));
        assert(out@ =~= old(out)@ + decimal(n as nat));
    }
}

/// Appends `text` after as many `fill` characters as bring it to `width`.
pub fn push_left_padded(out: &mut String, text: &str, fill: char, width: usize)
    ensures
        final(out)@ == old(out)@ + left_padded(text@, fill, width as nat),
{
    let n: usize = text.unicode_len();
    let mut i: usize = n;
    while i < width
        invariant
            n == text@.len(),
            n <= i,
            i <= width || i == n,
            out@ == old(out)@ + repeated(fill, (i - n) as nat),
        decreases width - i,
    {
        out.push(fill);
        assert(repeated(fill, (i + 1 - n) as nat) =~= repeated(fill, (i - n) as nat).push(fill));
        i = i + 1;
    }
    out.append(text);
    assert(out@ =~= old(out)@ + left_padded(text@, fill, width as nat));
}

/// The decimal digits of `n`.
pub fn decimal_string(n: u64) -> (r: String)
    ensures
        r@ == decimal(n as nat),
{
    let mut out = String::new();
    push_decimal(&mut out, n);
    assert(out@ =~= decimal(n as nat));
    out
}

/// Appends `n`, filled with zeros up to `width` characters.
pub fn push_zero_padded(out: &mut String, n: i64, width: usize)
    ensures
        final(out)@ == old(out)@ + zero_padded(n as int, width as nat),
{
    if n < 0 {
        out.push('-');
        let magnitude: u64 = (-(n as i128)) as u64;
        let digits = decimal_string(magnitude);
        push_left_padded(out, digits.as_str(), '0', if width >= 1 { width - 1 } else { 0 });
        assert(out@ =~= old(out)@ + zero_padded(n as int, width as nat));
    } else {
        let digits = decimal_string(n as u64);
        push_left_padded(out, digits.as_str(), '0', width);
    }
}

/// Whether `c` is one of the ten ASCII digits.
pub open spec fn is_digit(c: char) -> bool {
    '0' <= c <= '9'
}

/// Whether every character of `s` is an ASCII digit.
pub open spec fn all_digits(s: Seq<char>) -> bool {
    forall|i: int| 0 <= i < s.len() ==> is_digit(#[trigger] s[i])
}

/// The number that a row of digits spells.
pub open spec fn digits_value(s: Seq<char>) -> nat
    decreases s.len(),
{
    if s.len() == 0 {
        0
    } else {
        (10 * digits_value(s.drop_last()) + (s.last() as int - 48)) as nat
    }
}

/// `s` without the sign that it may begin with.
pub open spec fn unsigned_part(s: Seq<char>, minus_allowed: bool) -> Seq<char> {
    if s.len() > 0 && (s[0] == '+' || (minus_allowed && s[0] == '-')) {
        s.skip(1)
    } else {
        s
    }
}

/// The integer that `s` spells: an optional sign, then one digit or more.
pub open spec fn integer_value(s: Seq<char>, minus_allowed: bool) -> Option<int> {
    let body = unsigned_part(s, minus_allowed);
    if body.len() == 0 || !all_digits(body) {
        None
    } else if s[0] == '-' {
        Some(-(digits_value(body) as int))
    } else {
        Some(digits_value(body) as int)
    }
}

/// What reading `s` as a number between `lo` and `hi` gives.
pub open spec fn parsed_in(s: Seq<char>, lo: int, hi: int) -> Option<int> {
    match integer_value(s, lo < 0) {
        Some(v) => if lo <= v <= hi {
            Some(v)
        } else {
            None
        },
        None => None,
    }
}

proof fn digits_value_grows(s: Seq<char>, i: int)
    requires
        0 <= i <= s.len(),
        all_digits(s),
    ensures
        digits_value(s.take(i)) <= digits_value(s),
    decreases s.len() - i,
{
    if i < s.len() {
        digits_value_grows(s, i + 1);
        assert(s.take(i + 1).drop_last() =~= s.take(i));
        assert(is_digit(s[i]));
    } else {
        assert(s.take(i) =~= s);
    }
}

/// The value of the digits from `lo` up to `hi`, where they are digits, one at
/// least, and their value is at most `max`.
fn parse_digits(cs: &Vec<char>, lo: usize, hi: usize, max: u64) -> (r: Option<u64>)
    requires
        lo <= hi <= cs.len(),
    ensures
        ({
            let s = cs@.subrange(lo as int, hi as int);
            match r {
                Some(v) => s.len() > 0 && all_digits(s) && digits_value(s) == v && v <= max,
                None => s.len() == 0 || !all_digits(s) || digits_value(s) > max,
            }
        }),
{
    let ghost s = cs@.subrange(lo as int, hi as int);
    if lo == hi {
        return None;
    }
    let mut v: u64 = 0;
    let mut i: usize = lo;
    assert(s.take(0) =~= Seq::<char>::empty());
    let mut ok = true;
    let mut k: usize = lo;
    while k < hi
        invariant
            lo <= k <= hi <= cs.len(),
            s == cs@.subrange(lo as int, hi as int),
            ok ==> forall|j: int| 0 <= j < k - lo ==> is_digit(#[trigger] s[j]),
            !ok ==> !all_digits(s),
        decreases hi - k,
    {
        let c = cs[k];
        assert(s[k - lo] == c);
        if c < '0' || c > '9' {
            ok = false;
        }
        k = k + 1;
    }
    if !ok {
        return None;
    }
    while i < hi
        invariant
            lo <= i <= hi <= cs.len(),
            s == cs@.subrange(lo as int, hi as int),
            all_digits(s),
            digits_value(s.take(i - lo)) == v,
            v <= max,
        decreases hi - i,
    {
        let c = cs[i];
        assert(s[i - lo] == c);
        assert(is_digit(s[i - lo]));
        let d: u64 = (c as u32 - 48) as u64;
        assert(s.take(i - lo + 1).drop_last() =~= s.take(i - lo));
        proof {
            digits_value_grows(s, i - lo + 1);
        }
        let next: u128 = v as u128 * 10 + d as u128;
        if next > max as u128 {
            return None;
        }
        v = next as u64;
        i = i + 1;
    }
    assert(s.take(hi - lo) =~= s);
    Some(v)
}

/// Reads the characters from `lo` up to `hi` as a signed 64-bit number.
pub fn parse_i64(cs: &Vec<char>, lo: usize, hi: usize) -> (r: Option<i64>)
    requires
        lo <= hi <= cs.len(),
    ensures
        (match r {
            Some(v) => Some(v as int),
            None => None::<int>,
        }) == parsed_in(cs@.subrange(lo as int, hi as int), i64::MIN as int, i64::MAX as int),
{
    let ghost s = cs@.subrange(lo as int, hi as int);
    if lo == hi {
        return None;
    }
    assert(s[0] == cs@[lo as int]);
    assert(cs@.subrange(lo + 1, hi as int) =~= s.skip(1));
    if cs[lo] == '-' {
        match parse_digits(cs, lo + 1, hi, 0x8000_0000_0000_0000) {
            Some(v) => Some((-(v as i128)) as i64),
            None => None,
        }
    } else {
        let start: usize = if cs[lo] == '+' { lo + 1 } else { lo };
        match parse_digits(cs, start, hi, 0x7fff_ffff_ffff_ffff) {
            Some(v) => Some(v as i64),
            None => None,
        }
    }
}

/// Reads the characters from `lo` up to `hi` as an unsigned 32-bit number.
pub fn parse_u32(cs: &Vec<char>, lo: usize, hi: usize) -> (r: Option<u32>)
    requires
        lo <= hi <= cs.len(),
    ensures
        (match r {
            Some(v) => Some(v as int),
            None => None::<int>,
        }) == parsed_in(cs@.subrange(lo as int, hi as int), 0, u32::MAX as int),
{
    let ghost s = cs@.subrange(lo as int, hi as int);
    if lo == hi {
        return None;
    }
    assert(s[0] == cs@[lo as int]);
    assert(cs@.subrange(lo + 1, hi as int) =~= s.skip(1));
    let start: usize = if cs[lo] == '+' { lo + 1 } else { lo };
    let r = parse_digits(cs, start, hi, 0xffff_ffff);
    if cs[lo] == '-' {
        assert(!is_digit(s[0]));
        assert(!all_digits(s));
    }
    match r {
        Some(v) => Some(v as u32),
        None => None,
    }
}

// ---- white space -----------------------------------------------------------

/// Whether `c` has Unicode's `White_Space` property.
pub open spec fn is_white_space(c: char) -> bool {
    ||| '\u{9}' <= c <= '\u{d}'
    ||| c == ' '
    ||| c == '\u{85}'
    ||| c == '\u{a0}'
    ||| c == '\u{1680}'
    ||| '\u{2000}' <= c <= '\u{200a}'
    ||| c == '\u{2028}'
    ||| c == '\u{2029}'
    ||| c == '\u{202f}'
    ||| c == '\u{205f}'
    ||| c == '\u{3000}'
}

/// `s` without the white space at its end.
pub open spec fn trim_end(s: Seq<char>) -> Seq<char>
    decreases s.len(),
{
    if s.len() > 0 && is_white_space(s.last()) {
        trim_end(s.drop_last())
    } else {
        s
    }
}

/// `s` without the white space at its beginning.
pub open spec fn trim_start(s: Seq<char>) -> Seq<char>
    decreases s.len(),
{
    if s.len() > 0 && is_white_space(s[0]) {
        trim_start(s.drop_first())
    } else {
        s
    }
}

/// `s` without the white space at either end.
pub open spec fn trimmed(s: Seq<char>) -> Seq<char> {
    trim_end(trim_start(s))
}

fn white_space(c: char) -> (r: bool)
    ensures
        r == is_white_space(c),
{
    ('\u{9}' <= c && c <= '\u{d}') || c == ' ' || c == '\u{85}' || c == '\u{a0}' || c == '\u{1680}'
        || ('\u{2000}' <= c && c <= '\u{200a}') || c == '\u{2028}' || c == '\u{2029}'
        || c == '\u{202f}' || c == '\u{205f}' || c == '\u{3000}'
}

/// The bounds of the characters from `lo` up to `hi` that trimming keeps.
pub fn trim_bounds(cs: &Vec<char>, lo: usize, hi: usize) -> (r: (usize, usize))
    requires
        lo <= hi <= cs.len(),
    ensures
        lo <= r.0 <= r.1 <= hi,
        cs@.subrange(r.0 as int, r.1 as int) == trimmed(cs@.subrange(lo as int, hi as int)),
{
    let ghost s = cs@.subrange(lo as int, hi as int);
    let mut a: usize = lo;
    while a < hi && white_space(cs[a])
        invariant
            lo <= a <= hi <= cs.len(),
            trim_start(s) == trim_start(cs@.subrange(a as int, hi as int)),
        decreases hi - a,
    {
        assert(cs@.subrange(a as int, hi as int).drop_first() =~= cs@.subrange(a + 1, hi as int));
        a = a + 1;
    }
    let ghost t = cs@.subrange(a as int, hi as int);
    assert(trim_start(s) == t);
    let mut b: usize = hi;
    while a < b && white_space(cs[b - 1])
        invariant
            lo <= a <= b <= hi <= cs.len(),
            trim_end(t) == trim_end(cs@.subrange(a as int, b as int)),
        decreases b - a,
    {
        assert(cs@.subrange(a as int, b as int).drop_last() =~= cs@.subrange(a as int, b - 1));
        b = b - 1;
    }
    (a, b)
}

/// `s` without the white space at either end.
pub fn trim(s: &str) -> (r: String)
    ensures
        r@ == trimmed(s@),
{
    let cs = chars_of(s);
    let n: usize = cs.len();
    assert(cs@.subrange(0, n as int) =~= s@);
    let (a, b) = trim_bounds(&cs, 0, n);
    string_of(&cs, a, b)
}

// ---- parts of a text -------------------------------------------------------

/// The pieces of `s` between the separators, one more than there are of those.
pub open spec fn split_at(s: Seq<char>, sep: char) -> Seq<Seq<char>>
    decreases s.len(),
{
    if s.len() == 0 {
        seq![Seq::<char>::empty()]
    } else {
        let before = split_at(s.drop_last(), sep);
        if s.last() == sep {
            before.push(Seq::empty())
        } else {
            before.update(before.len() - 1, before.last().push(s.last()))
        }
    }
}

pub proof fn split_is_not_empty(s: Seq<char>, sep: char)
    ensures
        split_at(s, sep).len() > 0,
    decreases s.len(),
{
    if s.len() > 0 {
        split_is_not_empty(s.drop_last(), sep);
    }
}

/// Where the pieces of the characters from `lo` up to `hi` begin and end.
pub fn split(cs: &Vec<char>, lo: usize, hi: usize, sep: char) -> (r: Vec<(usize, usize)>)
    requires
        lo <= hi <= cs.len(),
    ensures
        r.len() == split_at(cs@.subrange(lo as int, hi as int), sep).len(),
        forall|i: int|
            #![trigger r[i]]
            0 <= i < r.len() ==> lo <= r[i].0 <= r[i].1 <= hi && cs@.subrange(
                r[i].0 as int,
                r[i].1 as int,
            ) == split_at(cs@.subrange(lo as int, hi as int), sep)[i],
{
    let mut out: Vec<(usize, usize)> = Vec::new();
    let mut start: usize = lo;
    let mut i: usize = lo;
    let ghost mut parts = split_at(cs@.subrange(lo as int, lo as int), sep);
    assert(cs@.subrange(lo as int, lo as int) =~= Seq::<char>::empty());
    while i < hi
        invariant
            lo <= start <= i <= hi <= cs.len(),
            parts == split_at(cs@.subrange(lo as int, i as int), sep),
            parts.len() == out.len() + 1,
            parts.last() == cs@.subrange(start as int, i as int),
            forall|k: int|
                #![trigger out[k]]
                0 <= k < out.len() ==> lo <= out[k].0 <= out[k].1 <= hi && cs@.subrange(
                    out[k].0 as int,
                    out[k].1 as int,
                ) == parts[k],
        decreases hi - i,
    {
        let ghost before = parts;
        assert(cs@.subrange(lo as int, i + 1).drop_last() =~= cs@.subrange(lo as int, i as int));
        assert(cs@.subrange(start as int, i + 1) =~= cs@.subrange(start as int, i as int).push(cs@[i as int]));
        proof {
            parts = split_at(cs@.subrange(lo as int, i + 1), sep);
        }
        if cs[i] == sep {
            out.push((start, i));
            start = i + 1;
            assert(cs@.subrange(start as int, i + 1) =~= Seq::<char>::empty());
        }
        i = i + 1;
    }
    out.push((start, hi));
    out
}

/// Whether `needle` occurs somewhere in `hay`.
pub open spec fn occurs_in(needle: Seq<char>, hay: Seq<char>) -> bool {
    exists|i: int| 0 <= i <= hay.len() - needle.len() && #[trigger] hay.subrange(i, i + needle.len()) == needle
}

fn matches_at(hay: &Vec<char>, needle: &Vec<char>, at: usize) -> (r: bool)
    requires
        at + needle.len() <= hay.len(),
    ensures
        r == (hay@.subrange(at as int, at + needle.len()) == needle@),
{
    let mut j: usize = 0;
    let ghost window = hay@.subrange(at as int, at + needle.len());
    while j < needle.len()
        invariant
            j <= needle.len(),
            at + needle.len() <= hay.len(),
            window == hay@.subrange(at as int, at + needle.len()),
            forall|k: int| 0 <= k < j ==> window[k] == needle@[k],
        decreases needle.len() - j,
    {
        if hay[at + j] != needle[j] {
            assert(window[j as int] != needle@[j as int]);
            return false;
        }
        j = j + 1;
    }
    assert(window =~= needle@);
    true
}

/// Whether `needle` occurs somewhere in `hay`.
pub fn contains(hay: &str, needle: &str) -> (r: bool)
    ensures
        r == occurs_in(needle@, hay@),
{
    let h = chars_of(hay);
    let n = chars_of(needle);
    if n.len() > h.len() {
        return false;
    }
    let last: usize = h.len() - n.len();
    let mut i: usize = 0;
    while i <= last
        invariant
            last == h.len() - n.len(),
            n.len() <= h.len(),
            i <= last + 1,
            h@ == hay@,
            n@ == needle@,
            forall|k: int| 0 <= k < i ==> #[trigger] hay@.subrange(k, k + needle@.len()) != needle@,
        decreases last + 1 - i,
    {
        if matches_at(&h, &n, i) {
            return true;
        }
        if i == last {
            return false;
        }
        i = i + 1;
    }
    false
}

/// The first `n` characters of `s`, the last of them an ellipsis where `s` is
/// longer than that.
pub open spec fn truncated(s: Seq<char>, n: nat) -> Seq<char> {
    if s.len() <= n {
        s
    } else {
        s.take(if n >= 1 { n - 1 } else { 0 }).push('\u{2026}')
    }
}

/// Shortens a text to `n` characters, marking the cut with an ellipsis.
pub fn truncate(s: &str, n: usize) -> (r: String)
    ensures
        r@ == truncated(s@, n as nat),
{
    let cs = chars_of(s);
    if cs.len() <= n {
        s.to_owned()
    } else {
        let keep: usize = if n >= 1 { n - 1 } else { 0 };
        let mut out = string_of(&cs, 0, keep);
        out.push('\u{2026}');
        assert(cs@.subrange(0, keep as int) =~= cs@.take(keep as int));
        out
    }
}

// ---- what writing and reading have in common -------------------------------

/// The digits of a number spell that number.
pub proof fn decimal_spells(n: nat)
    ensures
        decimal(n).len() > 0,
        all_digits(decimal(n)),
        digits_value(decimal(n)) == n,
    decreases n,
{
    if n < 10 {
        assert(decimal(n).drop_last() =~= Seq::<char>::empty());
        assert(digits_value(decimal(n).drop_last()) == 0);
    } else {
        decimal_spells(n / 10);
        assert(decimal(n).drop_last() =~= decimal(n / 10));
    }
}

proof fn zeros_in_front(s: Seq<char>, k: nat)
    requires
        all_digits(s),
    ensures
        all_digits(repeated('0', k) + s),
        digits_value(repeated('0', k) + s) == digits_value(s),
    decreases s.len() + k,
{
    let t = repeated('0', k) + s;
    if s.len() > 0 {
        assert(t.drop_last() =~= repeated('0', k) + s.drop_last());
        zeros_in_front(s.drop_last(), k);
        assert(t.last() == s.last());
    } else if k > 0 {
        assert(t.drop_last() =~= repeated('0', (k - 1) as nat) + s);
        zeros_in_front(s, (k - 1) as nat);
        assert(t.last() == '0');
    } else {
        assert(t =~= s);
    }
}

/// Filling a number with zeros changes neither that it is all digits nor what
/// it spells.
pub proof fn zero_padded_spells(n: nat, width: nat)
    ensures
        zero_padded(n as int, width).len() > 0,
        all_digits(zero_padded(n as int, width)),
        digits_value(zero_padded(n as int, width)) == n,
{
    decimal_spells(n);
    if decimal(n).len() < width {
        zeros_in_front(decimal(n), (width - decimal(n).len()) as nat);
    }
}

/// Digits hold no white space, so trimming leaves them as they are.
pub proof fn trimming_keeps(s: Seq<char>)
    requires
        s.len() > 0,
        is_digit(s[0]),
        is_digit(s.last()),
    ensures
        trimmed(s) == s,
{
}

/// A row of digits reads as the number that it spells.
pub proof fn digits_parse(s: Seq<char>, lo: int, hi: int)
    requires
        s.len() > 0,
        all_digits(s),
        lo <= digits_value(s) <= hi,
    ensures
        parsed_in(s, lo, hi) == Some(digits_value(s) as int),
{
    assert(is_digit(s[0]));
}

/// A text in which the separator does not occur is one piece.
pub proof fn split_without(s: Seq<char>, sep: char)
    requires
        !s.contains(sep),
    ensures
        split_at(s, sep) == seq![s],
    decreases s.len(),
{
    if s.len() > 0 {
        let t = s.drop_last();
        assert(!t.contains(sep)) by {
            if t.contains(sep) {
                let i = choose|i: int| 0 <= i < t.len() && t[i] == sep;
                assert(s[i] == sep);
            }
        }
        split_without(t, sep);
        assert(s[s.len() - 1] != sep);
        assert(t.push(s.last()) =~= s);
        assert(split_at(s, sep) =~= seq![s]);
    } else {
        assert(s =~= Seq::<char>::empty());
    }
}

/// A separator, and after it a text without one, add one piece.
pub proof fn split_append(a: Seq<char>, b: Seq<char>, sep: char)
    requires
        !b.contains(sep),
    ensures
        split_at(a.push(sep) + b, sep) == split_at(a, sep).push(b),
    decreases b.len(),
{
    let t = a.push(sep) + b;
    split_is_not_empty(a, sep);
    if b.len() > 0 {
        let c = b.drop_last();
        assert(!c.contains(sep)) by {
            if c.contains(sep) {
                let i = choose|i: int| 0 <= i < c.len() && c[i] == sep;
                assert(b[i] == sep);
            }
        }
        split_append(a, c, sep);
        assert(t.drop_last() =~= a.push(sep) + c);
        assert(b[b.len() - 1] != sep);
        assert(c.push(b.last()) =~= b);
        assert(split_at(t, sep) =~= split_at(a, sep).push(b));
    } else {
        assert(t =~= a.push(sep));
        assert(t.drop_last() =~= a);
        assert(b =~= Seq::<char>::empty());
    }
}

// ---- letter case -----------------------------------------------------------

/// `c`, or the lower case of it where it is an ASCII capital.
pub open spec fn ascii_lower(c: char) -> char {
    if 'A' <= c <= 'Z' {
        (c as int + 32) as char
    } else {
        c
    }
}

/// `s` with its ASCII capitals in lower case.
pub open spec fn ascii_lowered(s: Seq<char>) -> Seq<char> {
    s.map_values(|c: char| ascii_lower(c))
}

pub fn lower_char(c: char) -> (r: char)
    ensures
        r == ascii_lower(c),
{
    if 'A' <= c && c <= 'Z' {
        (c as u8 + 32u8) as char
    } else {
        c
    }
}

/// The characters from `lo` up to `hi`, with ASCII capitals in lower case.
pub fn lower_string_of(cs: &Vec<char>, lo: usize, hi: usize) -> (r: String)
    requires
        lo <= hi <= cs.len(),
    ensures
        r@ == ascii_lowered(cs@.subrange(lo as int, hi as int)),
{
    let mut out = String::new();
    let mut i: usize = lo;
    while i < hi
        invariant
            lo <= i <= hi <= cs.len(),
            out@ =~= ascii_lowered(cs@.subrange(lo as int, i as int)),
        decreases hi - i,
    {
        out.push(lower_char(cs[i]));
        i = i + 1;
    }
    out
}

/// The lower case of a text, by Unicode's rules.
pub uninterp spec fn lowercase(s: Seq<char>) -> Seq<char>;

/// `str::to_lowercase` maps a text by Unicode's `Lowercase` mapping, which
/// depends on the text alone.
pub assume_specification[ str::to_lowercase ](s: &str) -> (r: String)
    ensures
        r@ == lowercase(s@),
;

} // verus!
