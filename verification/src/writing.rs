//! What is written for numbers, times and dates, and what is left of texts that
//! are trimmed, cut or lowered, told by their characters.

use vstd::prelude::*;

use crate::dates::{
    civil_date, civil_date_exists, days_before_month, days_in_month, epoch_day, is_date, listened_text,
    month_name_text, month_text, one_date_per_day, parsed_date, year_length,
};
use crate::mpris::low_bits;
use crate::text::{
    all_digits, digits_parse, digits_value, is_digit, parsed_in, signed_decimal, split_append, split_at, split_without, trimming_keeps,
    ascii_lower, ascii_lowered, decimal, is_white_space, left_padded, trim_end, trim_start, trimmed, truncated, zero_padded,
};
use crate::time::hms_text;

verus! {

/// A number below a hundred in two digits.
pub open spec fn two_digits(n: nat) -> Seq<char> {
    seq![(48 + n / 10) as char, (48 + n % 10) as char]
}

/// Filling a number below a hundred to two characters writes two digits.
pub proof fn two_digits_are_padded(n: nat)
    requires
        n < 100,
    ensures
        zero_padded(n as int, 2) == two_digits(n),
{
    reveal_with_fuel(decimal, 3);
    if n < 10 {
        assert(zero_padded(n as int, 2) =~= two_digits(n));
    } else {
        assert(zero_padded(n as int, 2) =~= two_digits(n));
    }
}

/// A span is written as its hours, then its minutes and seconds in two digits
/// each.
pub proof fn span_is_written_by_hours(h: nat, m: nat, s: nat)
    requires
        m < 60,
        s < 60,
    ensures
        hms_text(h * 3600 + m * 60 + s) == decimal(h) + seq![':'] + two_digits(m) + seq![':'] + two_digits(s),
{
    let t = h * 3600 + m * 60 + s;
    vstd::arithmetic::div_mod::lemma_fundamental_div_mod_converse(t as int, 3600, h as int, (m * 60 + s) as int);
    vstd::arithmetic::div_mod::lemma_fundamental_div_mod_converse((m * 60 + s) as int, 60, m as int, s as int);
    vstd::arithmetic::div_mod::lemma_fundamental_div_mod_converse(t as int, 60, (h * 60 + m) as int, s as int);
    two_digits_are_padded(m);
    two_digits_are_padded(s);
    assert(hms_text(t) =~= decimal(h) + seq![':'] + two_digits(m) + seq![':'] + two_digits(s));
}

/// A number is written without zeros in front, and its last digit is what is left
/// of it by ten.
pub proof fn number_is_written_by_digits(n: nat)
    ensures
        n > 0 ==> decimal(n)[0] != '0',
        n < 10 ==> decimal(n).len() == 1,
        n >= 10 ==> decimal(n).drop_last() == decimal(n / 10),
        decimal(n).len() > 0,
        decimal(n).last() as int == 48 + n % 10,
    decreases n,
{
    if n >= 10 {
        number_is_written_by_digits(n / 10);
        assert(decimal(n).drop_last() =~= decimal(n / 10));
        assert(decimal(n)[0] == decimal(n / 10)[0]);
    }
}

/// A text is filled with the given character in front, to just the width asked
/// for, and one that is as long already is left alone.
pub proof fn filled_in_front(s: Seq<char>, fill: char, width: nat)
    ensures
        ({
            let r = left_padded(s, fill, width);
            let k = r.len() - s.len();
            &&& s.len() >= width ==> r == s
            &&& s.len() < width ==> r.len() == width
            &&& k >= 0
            &&& forall|i: int| 0 <= i < k ==> #[trigger] r[i] == fill
            &&& r.skip(k) == s
        }),
{
    let r = left_padded(s, fill, width);
    assert(r.skip(r.len() - s.len()) =~= s);
}

/// Where trimming the end of a text stops.
proof fn end_is_cut(s: Seq<char>)
    ensures
        ({
            let r = trim_end(s);
            &&& r.len() <= s.len()
            &&& r == s.take(r.len() as int)
            &&& r.len() > 0 ==> !is_white_space(r.last())
            &&& forall|i: int| r.len() <= i < s.len() ==> is_white_space(#[trigger] s[i])
        }),
    decreases s.len(),
{
    let r = trim_end(s);
    if s.len() > 0 && is_white_space(s.last()) {
        let t = s.drop_last();
        end_is_cut(t);
        assert(r =~= s.take(r.len() as int));
        assert forall|i: int| r.len() <= i < s.len() implies is_white_space(#[trigger] s[i]) by {
            if i < t.len() {
                assert(t[i] == s[i]);
            }
        }
    } else {
        assert(r =~= s.take(r.len() as int));
    }
}

proof fn start_is_cut(s: Seq<char>)
    ensures
        ({
            let r = trim_start(s);
            let k = s.len() - r.len();
            &&& k >= 0
            &&& r == s.skip(k)
            &&& r.len() > 0 ==> !is_white_space(r[0])
            &&& forall|i: int| 0 <= i < k ==> is_white_space(#[trigger] s[i])
        }),
    decreases s.len(),
{
    let r = trim_start(s);
    let k = s.len() - r.len();
    if s.len() > 0 && is_white_space(s[0]) {
        let t = s.drop_first();
        start_is_cut(t);
        assert(r =~= s.skip(k));
        assert forall|i: int| 0 <= i < k implies is_white_space(#[trigger] s[i]) by {
            if i > 0 {
                assert(t[i - 1] == s[i]);
            }
        }
    } else {
        assert(r =~= s.skip(k));
    }
}

/// A text that holds something is trimmed to what is between its first and its
/// last character that is no white space, those included; one that holds none is
/// trimmed to nothing.
pub proof fn trimmed_to_what_is_inside(s: Seq<char>, first: int, last: int)
    requires
        0 <= first <= last < s.len(),
        !is_white_space(s[first]),
        !is_white_space(s[last]),
        forall|i: int| 0 <= i < first ==> is_white_space(#[trigger] s[i]),
        forall|i: int| last < i < s.len() ==> is_white_space(#[trigger] s[i]),
    ensures
        trimmed(s) == s.subrange(first, last + 1),
{
    start_is_cut(s);
    let t = trim_start(s);
    let k = s.len() - t.len();
    assert(k == first) by {
        if k < first {
            assert(t[0] == s[k]);
        } else if k > first {
            assert(is_white_space(s[first]));
        }
    }
    end_is_cut(t);
    let r = trim_end(t);
    assert(r.len() == last + 1 - first) by {
        if r.len() > last + 1 - first {
            assert(r.last() == t[r.len() - 1]);
            assert(t[r.len() - 1] == s[first + r.len() - 1]);
        } else if r.len() < last + 1 - first {
            assert(t[last - first] == s[last]);
        }
    }
    assert(r =~= s.subrange(first, last + 1));
}

/// Blanks, tabs and line ends are white space; letters, digits and the marks of
/// ASCII are not.
pub proof fn blanks_are_white_space(c: char)
    ensures
        c == ' ' || c == '\t' || c == '\n' || c == '\r' ==> is_white_space(c),
        '!' <= c <= '~' ==> !is_white_space(c),
{
}

/// A text that is too long is cut to the length asked for: all but its last
/// character are those of the text, and the last is an ellipsis. One that fits
/// stays.
pub proof fn cut_to_length(s: Seq<char>, n: nat)
    ensures
        s.len() <= n ==> truncated(s, n) == s,
        s.len() > n && n > 0 ==> {
            &&& truncated(s, n).len() == n
            &&& truncated(s, n).last() == '\u{2026}'
            &&& forall|i: int| 0 <= i < n - 1 ==> #[trigger] truncated(s, n)[i] == s[i]
        },
        s.len() > 0 && n == 0 ==> truncated(s, n) == seq!['\u{2026}'],
{
}

/// Lowering the case of a text turns `A` to `Z` into `a` to `z` and leaves every
/// other character where and what it is.
pub proof fn capitals_become_small(s: Seq<char>, i: int)
    requires
        0 <= i < s.len(),
    ensures
        ascii_lowered(s).len() == s.len(),
        'A' <= s[i] <= 'Z' ==> ascii_lowered(s)[i] as int - 'a' as int == s[i] as int - 'A' as int,
        !('A' <= s[i] <= 'Z') ==> ascii_lowered(s)[i] == s[i],
{
    assert(ascii_lowered(s)[i] == ascii_lower(s[i]));
}

/// A negative number is written as a minus and its digits, which are filled with
/// zeros to one character less than the width; one that is not negative has no
/// sign.
pub proof fn minus_is_written(n: nat, width: nat)
    requires
        n > 0,
        width >= 1,
    ensures
        signed_decimal(-(n as int)) == seq!['-'] + decimal(n),
        signed_decimal(n as int) == decimal(n),
        signed_decimal(0) == decimal(0),
        zero_padded(-(n as int), width) == seq!['-'] + left_padded(decimal(n), '0', (width - 1) as nat),
        zero_padded(n as int, width) == left_padded(decimal(n), '0', width),
{
}

/// A row of digits reads as the number that it spells, with a plus in front too;
/// with a minus in front as the opposite number, where that is allowed, and as none
/// where it is not. What is outside the bounds reads as none, and so does what
/// holds anything else.
pub proof fn signs_are_read(s: Seq<char>, lo: int, hi: int)
    requires
        s.len() > 0,
        all_digits(s),
    ensures
        ({
            let v = digits_value(s) as int;
            &&& lo <= v <= hi ==> parsed_in(s, lo, hi) == Some(v) && parsed_in(seq!['+'] + s, lo, hi) == Some(v)
            &&& v < lo || v > hi ==> parsed_in(s, lo, hi) is None && parsed_in(seq!['+'] + s, lo, hi) is None
            &&& lo < 0 && lo <= -v <= hi ==> parsed_in(seq!['-'] + s, lo, hi) == Some(-v)
            &&& lo < 0 && (-v < lo || -v > hi) ==> parsed_in(seq!['-'] + s, lo, hi) is None
            &&& lo >= 0 ==> parsed_in(seq!['-'] + s, lo, hi) is None
            &&& parsed_in(Seq::empty(), lo, hi) is None
            &&& parsed_in(seq!['+'], lo, hi) is None && parsed_in(seq!['-'], lo, hi) is None
        }),
{
    let plus = seq!['+'] + s;
    let minus = seq!['-'] + s;
    assert(plus.skip(1) =~= s);
    assert(minus.skip(1) =~= s);
    assert(is_digit(s[0]));
    assert(plus[0] == '+' && minus[0] == '-');
    assert(!all_digits(minus)) by {
        assert(!is_digit(minus[0]));
    }
    let p = seq!['+'];
    let m = seq!['-'];
    assert(p.skip(1).len() == 0 && m.skip(1).len() == 0);
    assert(!is_digit(m[0]));
}

/// A text that holds a character which is neither a digit nor a sign in front
/// reads as no number.
pub proof fn other_characters_are_not_read(s: Seq<char>, lo: int, hi: int, i: int)
    requires
        0 <= i < s.len(),
        !('0' <= s[i] <= '9'),
        i > 0 || (s[i] != '+' && s[i] != '-'),
    ensures
        parsed_in(s, lo, hi) is None,
{
    assert(!is_digit(s[i]));
    if i > 0 {
        assert(s.skip(1)[i - 1] == s[i]);
    }
}

/// Digits spell a number from left to right, each ten times what follows.
pub proof fn digits_are_spelled(s: Seq<char>, c: char)
    requires
        '0' <= c <= '9',
    ensures
        digits_value(seq![]) == 0,
        digits_value(s.push(c)) == 10 * digits_value(s) + (c as int - '0' as int),
{
    assert(s.push(c).drop_last() =~= s);
}

/// The lowest 64 bits of a number, taken for a signed number, are within the range
/// of such numbers and differ from it by a multiple of the range's size.
pub proof fn low_bits_are_what_is_left(n: nat)
    ensures
        -0x8000_0000_0000_0000 <= low_bits(n) < 0x8000_0000_0000_0000,
        (n - low_bits(n)) % 0x1_0000_0000_0000_0000 == 0,
        n < 0x8000_0000_0000_0000 ==> low_bits(n) == n,
{
}

// ---- dates -----------------------------------------------------------------

/// How long the months of a year are.
pub open spec fn month_lengths(leap: bool) -> Seq<int> {
    seq![31, if leap { 29int } else { 28 }, 31, 30, 31, 30, 31, 31, 30, 31, 30, 31]
}

/// Days are counted from the first of January 1970, one after the other: to the
/// end of the month, from there to the first of the next, and from the end of
/// December to the first of January. Every fourth year has a 29th of February, but
/// of the hundredth years only the four hundredths.
pub proof fn days_are_counted_on(y: int, m: int, d: int)
    requires
        is_date(y, m, d),
    ensures
        epoch_day(1970, 1, 1) == 0,
        epoch_day(y, m, d + 1) == epoch_day(y, m, d) + 1,
        d == days_in_month(y, m) && m < 12 ==> epoch_day(y, m + 1, 1) == epoch_day(y, m, d) + 1,
        d == days_in_month(y, m) && m == 12 ==> epoch_day(y + 1, 1, 1) == epoch_day(y, m, d) + 1,
        days_in_month(y, m) == month_lengths(y % 4 == 0 && (y % 100 != 0 || y % 400 == 0))[m - 1],
{
    year_length(y);
    reveal_with_fuel(days_before_month, 2);
    assert(days_before_month(y, 13) == days_before_month(y, 12) + days_in_month(y, 12));
}

/// The English names of the months.
pub open spec fn months() -> Seq<Seq<char>> {
    seq![
        "January"@,
        "February"@,
        "March"@,
        "April"@,
        "May"@,
        "June"@,
        "July"@,
        "August"@,
        "September"@,
        "October"@,
        "November"@,
        "December"@,
    ]
}

/// Whether a Unix time falls on a day.
pub open spec fn falls_on(epoch: int, y: int, m: int, d: int) -> bool {
    is_date(y, m, d) && epoch_day(y, m, d) * 86400 <= epoch < epoch_day(y, m, d) * 86400 + 86400
}

proof fn day_is_found(epoch: int, y: int, m: int, d: int)
    requires
        falls_on(epoch, y, m, d),
    ensures
        civil_date(epoch) == (y, m, d),
{
    let n = epoch_day(y, m, d);
    vstd::arithmetic::div_mod::lemma_fundamental_div_mod_converse(epoch, 86400, n, epoch - n * 86400);
    let t = (y, m, d);
    assert(is_date(t.0, t.1, t.2) && epoch_day(t.0, t.1, t.2) == epoch / 86400);
    let c = civil_date(epoch);
    one_date_per_day(c.0, c.1, c.2, y, m, d);
}

/// The heading over an entry is the English name of the month and the year of the
/// day on which it was listened to, and its date is that day's year, month and day;
/// where the time is not known, the heading says so.
pub proof fn listening_is_dated(epoch: i64, y: int, m: int, d: int)
    requires
        falls_on(epoch as int, y, m, d),
    ensures
        month_text(Some(epoch)) == months()[m - 1] + seq![' '] + signed_decimal(y),
        listened_text(epoch) == zero_padded(y, 4) + seq!['-'] + two_digits(m as nat) + seq!['-'] + two_digits(d as nat),
        month_text(None) == "Unknown date"@,
{
    day_is_found(epoch as int, y, m, d);
    two_digits_are_padded(m as nat);
    two_digits_are_padded(d as nat);
    assert(month_name_text(m) == months()[m - 1]);
    assert(month_text(Some(epoch)) =~= months()[m - 1] + seq![' '] + signed_decimal(y));
    assert(listened_text(epoch) =~= zero_padded(y, 4) + seq!['-'] + two_digits(m as nat) + seq!['-'] + two_digits(
        d as nat,
    ));
}

/// Three rows of digits between hyphens name the day that they spell, if the month
/// is one of twelve and the day one of thirty-one; otherwise they name none. The
/// time is the midnight at which that day begins, counted on from the first of the
/// month.
pub proof fn day_is_read(years: Seq<char>, months: Seq<char>, days: Seq<char>)
    requires
        years.len() > 0 && all_digits(years) && digits_value(years) <= 0x7fff_ffff_ffff_ffff,
        months.len() > 0 && all_digits(months) && digits_value(months) <= 0xffff_ffff,
        days.len() > 0 && all_digits(days) && digits_value(days) <= 0xffff_ffff,
    ensures
        ({
            let s = years.push('-') + months.push('-') + days;
            let y = digits_value(years) as int;
            let m = digits_value(months) as int;
            let d = digits_value(days) as int;
            let t = (epoch_day(y, m, 1) + d - 1) * 86400;
            let good = 1 <= m <= 12 && 1 <= d <= 31 && -0x8000_0000_0000_0000 <= t <= 0x7fff_ffff_ffff_ffff;
            &&& good ==> parsed_date(s) == Some(t)
            &&& !good ==> parsed_date(s) is None
        }),
{
    let s = years.push('-') + months.push('-') + days;
    assert(is_digit(years[0]) && is_digit(days[days.len() - 1]));
    assert(is_digit(months[0]) && is_digit(months[months.len() - 1]));
    assert(is_digit(years[years.len() - 1]) && is_digit(days[0]));
    assert(s[0] == years[0] && s.last() == days.last());
    trimming_keeps(s);
    no_hyphen_in(years);
    no_hyphen_in(months);
    no_hyphen_in(days);
    split_without(years, '-');
    split_append(years, months, '-');
    let front = years.push('-') + months;
    split_append(front, days, '-');
    assert(front.push('-') + days =~= s);
    let parts = split_at(s, '-');
    assert(parts =~= seq![years, months, days]);
    trimming_keeps(years);
    trimming_keeps(months);
    trimming_keeps(days);
    digits_parse(years, i64::MIN as int, i64::MAX as int);
    digits_parse(months, 0, u32::MAX as int);
    digits_parse(days, 0, u32::MAX as int);
}

proof fn no_hyphen_in(s: Seq<char>)
    requires
        all_digits(s),
    ensures
        !s.contains('-'),
{
    if s.contains('-') {
        let i = choose|i: int| 0 <= i < s.len() && s[i] == '-';
        assert(is_digit(s[i]));
    }
}

/// A text without a hyphen, or with only one, names no day.
pub proof fn fewer_hyphens_name_no_day(a: Seq<char>, b: Seq<char>)
    requires
        !a.contains('-'),
        !b.contains('-'),
        a.len() > 0 && !is_white_space(a[0]) && !is_white_space(a.last()),
        b.len() > 0 && !is_white_space(b.last()),
    ensures
        parsed_date(a) is None,
        parsed_date(a.push('-') + b) is None,
{
    split_without(a, '-');
    split_append(a, b, '-');
    let s = a.push('-') + b;
    assert(s[0] == a[0] && s.last() == b.last());
    assert(trimmed(a) == a);
    assert(trimmed(s) == s);
}

/// Every time falls on some day.
pub proof fn every_time_has_its_day(epoch: int)
    ensures
        falls_on(epoch, civil_date(epoch).0, civil_date(epoch).1, civil_date(epoch).2),
{
    civil_date_exists(epoch);
    vstd::arithmetic::div_mod::lemma_fundamental_div_mod(epoch, 86400);
}

} // verus!
