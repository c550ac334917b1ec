//! Calendar dates (UTC, proleptic Gregorian) and Unix time.

use vstd::prelude::*;

use crate::text;
use crate::text::{all_digits, split_at, trimmed, zero_padded};

verus! {

/// Whether year `y` has a 29th of February.
pub open spec fn is_leap(y: int) -> bool {
    y % 4 == 0 && (y % 100 != 0 || y % 400 == 0)
}

/// The number of days in month `m` (1 to 12) of year `y`.
pub open spec fn days_in_month(y: int, m: int) -> int {
    if m == 2 {
        if is_leap(y) {
            29
        } else {
            28
        }
    } else if m == 4 || m == 6 || m == 9 || m == 11 {
        30
    } else {
        31
    }
}

/// The days of year `y` before the first of month `m`.
pub open spec fn days_before_month(y: int, m: int) -> int
    decreases m,
{
    if m <= 1 {
        0
    } else {
        days_before_month(y, m - 1) + days_in_month(y, m - 1)
    }
}

/// The days from the first of January of year 0 to that of year `y`: 365 for
/// each year and one for each leap year on the way.
pub open spec fn days_before_year(y: int) -> int {
    365 * y + (y + 3) / 4 - (y + 99) / 100 + (y + 399) / 400
}

/// The days from 1970-01-01 to day `d` of month `m` of year `y`.
pub open spec fn epoch_day(y: int, m: int, d: int) -> int {
    days_before_year(y) - days_before_year(1970) + days_before_month(y, m) + d - 1
}

/// Whether there is a day `d` of month `m` of year `y`.
pub open spec fn is_date(y: int, m: int, d: int) -> bool {
    1 <= m <= 12 && 1 <= d <= days_in_month(y, m)
}

/// A year has 366 days if it is a leap year, and 365 if not.
pub proof fn year_length(y: int)
    ensures
        days_before_year(y + 1) - days_before_year(y) == if is_leap(y) {
            366int
        } else {
            365
        },
        days_before_month(y, 13) == days_before_year(y + 1) - days_before_year(y),
{
    year_step(y);
    month_starts(y, 12);
    assert(days_before_month(y, 13) == days_before_month(y, 12) + 31);
}

proof fn year_step(y: int)
    ensures
        days_before_year(y + 1) - days_before_year(y) == if is_leap(y) {
            366int
        } else {
            365
        },
{
    quotient_step(y, 4);
    quotient_step(y, 100);
    quotient_step(y, 400);
    assert(y % 400 == 0 ==> y % 100 == 0) by {
        assert(y == 400 * (y / 400) + y % 400);
    }
    assert(y % 100 == 0 ==> y % 4 == 0) by {
        assert(y == 100 * (y / 100) + y % 100);
    }
}

/// The quotient by `k` grows by one at the multiples of `k`.
proof fn quotient_step(y: int, k: int)
    requires
        k > 1,
    ensures
        (y + k) / k - (y + k - 1) / k == if y % k == 0 {
            1int
        } else {
            0
        },
{
    let q = y / k;
    let r = y % k;
    vstd::arithmetic::div_mod::lemma_fundamental_div_mod(y, k);
    assert(y + k == k * (q + 1) + r) by (nonlinear_arith)
        requires
            y == k * q + r,
    ;
    vstd::arithmetic::div_mod::lemma_fundamental_div_mod_converse(y + k, k, q + 1, r);
    if r == 0 {
        assert(y + k - 1 == k * q + (k - 1));
        vstd::arithmetic::div_mod::lemma_fundamental_div_mod_converse(y + k - 1, k, q, k - 1);
    } else {
        assert(y + k - 1 == k * (q + 1) + (r - 1));
        vstd::arithmetic::div_mod::lemma_fundamental_div_mod_converse(y + k - 1, k, q + 1, r - 1);
    }
}

spec fn cumulative(m: int) -> int {
    if m == 1 {
        0
    } else if m == 2 {
        31
    } else if m == 3 {
        59
    } else if m == 4 {
        90
    } else if m == 5 {
        120
    } else if m == 6 {
        151
    } else if m == 7 {
        181
    } else if m == 8 {
        212
    } else if m == 9 {
        243
    } else if m == 10 {
        273
    } else if m == 11 {
        304
    } else {
        334
    }
}

proof fn month_starts(y: int, m: int)
    requires
        1 <= m <= 12,
    ensures
        days_before_month(y, m) == cumulative(m) + if m > 2 && is_leap(y) {
            1int
        } else {
            0
        },
{
    reveal_with_fuel(days_before_month, 13);
}

/// The days before year `yoe` of a 400-year cycle whose years begin in March.
spec fn march_years(yoe: int) -> int {
    365 * yoe + yoe / 4 - yoe / 100
}

proof fn march_based(y: int, m: int, d: int)
    requires
        1 <= m <= 12,
    ensures
        ({
            let y1 = if m <= 2 { y - 1 } else { y };
            let era = y1 / 400;
            let yoe = y1 - era * 400;
            let mp = if m > 2 { m - 3 } else { m + 9 };
            &&& 0 <= yoe < 400
            &&& epoch_day(y, m, d) == era * 146097 + march_years(yoe) + (153 * mp + 2) / 5 + d - 1 - 719468
        }),
{
    month_starts(y, m);
    let y1 = if m <= 2 { y - 1 } else { y };
    let era = y1 / 400;
    let yoe = y1 - era * 400;
    assert(y1 == era * 400 + yoe);
    assert((y1 + 4) / 4 == 100 * era + yoe / 4 + 1);
    assert((y1 + 100) / 100 == 4 * era + yoe / 100 + 1);
    assert((y1 + 400) / 400 == era + 1);
    assert(days_before_year(y1 + 1) == 365 * y1 + 365 + 97 * era + yoe / 4 - yoe / 100 + 1);
    year_length(y1);
    if m <= 2 {
        assert(epoch_day(y, m, d) == days_before_year(y1 + 1) - 719528 + cumulative(m) + d - 1);
    } else {
        assert(epoch_day(y, m, d) == days_before_year(y1 + 1) - 365 - 719528 + cumulative(m) + d - 1);
    }
}

/// The year of a 400-year cycle that day `doe` of it falls in.
proof fn year_of_cycle(doe: int)
    requires
        0 <= doe < 146097,
    ensures
        ({
            let yoe = (doe - doe / 1460 + doe / 36524 - doe / 146096) / 365;
            &&& 0 <= yoe < 400
            &&& march_years(yoe) <= doe
            &&& yoe < 399 ==> doe < march_years(yoe + 1)
        }),
{
    let yoe = (doe - doe / 1460 + doe / 36524 - doe / 146096) / 365;
    if doe < 36524 {
    } else if doe < 73048 {
    } else if doe < 109572 {
    } else if doe < 146096 {
    } else {
    }
}

proof fn march_year_ends(yoe: int, doy: int)
    requires
        0 <= yoe < 400,
        0 <= doy,
        yoe < 399 ==> march_years(yoe) + doy < march_years(yoe + 1),
        yoe == 399 ==> doy <= 365,
    ensures
        doy <= 365,
        doy == 365 ==> is_leap(yoe + 1),
{
    assert((yoe + 1) / 4 - yoe / 4 == if (yoe + 1) % 4 == 0 { 1int } else { 0 });
    assert((yoe + 1) / 100 - yoe / 100 == if (yoe + 1) % 100 == 0 { 1int } else { 0 });
}

/// Day `doy` of a year that begins in March is day `d` of month `m`.
proof fn month_of_year(doy: int)
    requires
        0 <= doy <= 365,
    ensures
        ({
            let mp = (5 * doy + 2) / 153;
            let d = doy - (153 * mp + 2) / 5 + 1;
            let m = if mp < 10 { mp + 3 } else { mp - 9 };
            &&& 0 <= mp < 12
            &&& 1 <= m <= 12
            &&& 1 <= d
            &&& m != 2 ==> forall|y: int| d <= #[trigger] days_in_month(y, m)
            &&& m == 2 ==> d <= 29 && (d == 29 <==> doy == 365)
        }),
{
    let mp = (5 * doy + 2) / 153;
    if mp == 0 {
    } else if mp == 1 {
    } else if mp == 2 {
    } else if mp == 3 {
    } else if mp == 4 {
    } else if mp == 5 {
    } else if mp == 6 {
    } else if mp == 7 {
    } else if mp == 8 {
    } else if mp == 9 {
    } else if mp == 10 {
    } else {
        assert(mp == 11);
    }
}

fn floor_div(a: i128, b: i128) -> (q: i128)
    requires
        b > 0,
        -0x4000_0000_0000_0000_0000 <= a <= 0x4000_0000_0000_0000_0000,
    ensures
        q as int == a as int / b as int,
        -0x4000_0000_0000_0000_0000 - 1 <= q <= 0x4000_0000_0000_0000_0000,
{
    if a >= 0 {
        let q: i128 = a / b;
        proof {
            assert(0 <= a / b <= a) by (nonlinear_arith)
                requires
                    a >= 0,
                    b > 0,
            ;
        }
        q
    } else {
        let n: i128 = -(a + 1);
        let q: i128 = n / b;
        proof {
            let ni = n as int;
            let bi = b as int;
            assert(0 <= ni / bi <= ni) by (nonlinear_arith)
                requires
                    ni >= 0,
                    bi > 0,
            ;
            vstd::arithmetic::div_mod::lemma_fundamental_div_mod(ni, bi);
            let r = ni % bi;
            assert(0 <= r < bi);
            assert(a as int == bi * (-(ni / bi) - 1) + (bi - 1 - r)) by (nonlinear_arith)
                requires
                    a as int == -ni - 1,
                    ni == bi * (ni / bi) + r,
            ;
            vstd::arithmetic::div_mod::lemma_fundamental_div_mod_converse(
                a as int,
                bi,
                -(ni / bi) - 1,
                bi - 1 - r,
            );
        }
        -q - 1
    }
}

/// The date that day `doe` of 400-year cycle `era` is, counted from the first
/// of March of year 0.
proof fn date_of_cycle_day(era: int, doe: int)
    requires
        0 <= doe < 146097,
    ensures
        ({
            let yoe = (doe - doe / 1460 + doe / 36524 - doe / 146096) / 365;
            let doy = doe - (365 * yoe + yoe / 4 - yoe / 100);
            let mp = (5 * doy + 2) / 153;
            let d = doy - (153 * mp + 2) / 5 + 1;
            let m = if mp < 10 { mp + 3 } else { mp - 9 };
            let y = if m <= 2 { yoe + era * 400 + 1 } else { yoe + era * 400 };
            &&& 0 <= yoe < 400
            &&& 0 <= doy <= 365
            &&& 0 <= mp < 12
            &&& 1 <= d <= 31
            &&& is_date(y, m, d)
            &&& epoch_day(y, m, d) == era * 146097 + doe - 719468
        }),
{
    let yoe = (doe - doe / 1460 + doe / 36524 - doe / 146096) / 365;
    let doy = doe - (365 * yoe + yoe / 4 - yoe / 100);
    year_of_cycle(doe);
    march_year_ends(yoe, doy);
    month_of_year(doy);
    let mp = (5 * doy + 2) / 153;
    let d = doy - (153 * mp + 2) / 5 + 1;
    let m = if mp < 10 { mp + 3 } else { mp - 9 };
    let y1 = yoe + era * 400;
    let y = if m <= 2 { y1 + 1 } else { y1 };
    march_based(y, m, d);
    assert(y1 / 400 == era);
    assert(y1 - y1 / 400 * 400 == yoe);
    leap_cycle(era, yoe + 1);
    assert(y1 + 1 == era * 400 + (yoe + 1));
    assert(d <= days_in_month(y, m));
}

proof fn leap_cycle(era: int, y: int)
    ensures
        is_leap(era * 400 + y) == is_leap(y),
{
    assert((era * 400 + y) % 4 == y % 4);
    assert((era * 400 + y) % 100 == y % 100);
    assert((era * 400 + y) % 400 == y % 400);
}

/// The civil `(year, month, day)` of a Unix time in seconds.
pub fn civil_from_epoch(epoch: i64) -> (r: (i64, u32, u32))
    ensures
        is_date(r.0 as int, r.1 as int, r.2 as int),
        epoch_day(r.0 as int, r.1 as int, r.2 as int) == epoch as int / 86400,
{
    let days: i128 = floor_div(epoch as i128, 86_400);
    assert(-106751991167301 <= days <= 106751991167300);
    let z: i128 = days + 719_468;
    let era: i128 = floor_div(z, 146_097);
    assert(-730692566 <= era <= 730692566);
    let doe: i128 = z - era * 146_097;
    assert(0 <= doe < 146_097);
    proof {
        date_of_cycle_day(era as int, doe as int);
    }
    let yoe: i128 = (doe - doe / 1460 + doe / 36524 - doe / 146096) / 365;
    let y: i128 = yoe + era * 400;
    let doy: i128 = doe - (365 * yoe + yoe / 4 - yoe / 100);
    let mp: i128 = (5 * doy + 2) / 153;
    let d: i128 = doy - (153 * mp + 2) / 5 + 1;
    let m: i128 = if mp < 10 { mp + 3 } else { mp - 9 };
    let year: i128 = if m <= 2 { y + 1 } else { y };
    (year as i64, m as u32, d as u32)
}

/// The days from 1970-01-01 to a civil date, whatever the year.
fn day_number(y: i64, m: u32, d: u32) -> (r: i128)
    requires
        1 <= m <= 12,
        1 <= d <= 31,
    ensures
        r as int == epoch_day(y as int, m as int, d as int),
        -0x1000_0000_0000_0000_0000 <= r <= 0x1000_0000_0000_0000_0000,
{
    proof {
        march_based(y as int, m as int, d as int);
    }
    let y1: i128 = if m <= 2 { y as i128 - 1 } else { y as i128 };
    let era: i128 = floor_div(y1, 400);
    let yoe: i128 = y1 - era * 400;
    let mp: i128 = if m > 2 { m as i128 - 3 } else { m as i128 + 9 };
    let doy: i128 = (153 * mp + 2) / 5 + (d as i128 - 1);
    let doe: i128 = yoe * 365 + yoe / 4 - yoe / 100 + doy;
    era * 146_097 + doe - 719_468
}

/// The days from 1970-01-01 to a civil date.
pub fn days_from_civil(y: i64, m: u32, d: u32) -> (r: i64)
    requires
        1 <= m <= 12,
        1 <= d <= 31,
        i64::MIN <= epoch_day(y as int, m as int, d as int) <= i64::MAX,
    ensures
        r == epoch_day(y as int, m as int, d as int),
{
    day_number(y, m, d) as i64
}

proof fn years_in_order(y1: int, y2: int)
    requires
        y1 <= y2,
    ensures
        days_before_year(y1) + 365 * (y2 - y1) <= days_before_year(y2),
    decreases y2 - y1,
{
    if y1 < y2 {
        years_in_order(y1, y2 - 1);
        year_step(y2 - 1);
    }
}

proof fn day_of_year_bound(y: int, m: int, d: int)
    requires
        is_date(y, m, d),
    ensures
        0 <= days_before_month(y, m) + d - 1 < days_before_year(y + 1) - days_before_year(y),
{
    month_starts(y, m);
    year_step(y);
}

/// No two dates fall on one day.
pub proof fn one_date_per_day(y1: int, m1: int, d1: int, y2: int, m2: int, d2: int)
    requires
        is_date(y1, m1, d1),
        is_date(y2, m2, d2),
        epoch_day(y1, m1, d1) == epoch_day(y2, m2, d2),
    ensures
        y1 == y2 && m1 == m2 && d1 == d2,
{
    day_of_year_bound(y1, m1, d1);
    day_of_year_bound(y2, m2, d2);
    if y1 < y2 {
        years_in_order(y1 + 1, y2);
    } else if y2 < y1 {
        years_in_order(y2 + 1, y1);
    }
    month_starts(y1, m1);
    month_starts(y1, m2);
}

// ---- dates as text ---------------------------------------------------------

/// A date as `YYYY-MM-DD`.
pub open spec fn date_text(y: int, m: int, d: int) -> Seq<char> {
    zero_padded(y, 4).push('-') + zero_padded(m, 2).push('-') + zero_padded(d, 2)
}

/// The English name of month `m`.
pub open spec fn month_name_text(m: int) -> Seq<char> {
    if m == 1 {
        "January"@
    } else if m == 2 {
        "February"@
    } else if m == 3 {
        "March"@
    } else if m == 4 {
        "April"@
    } else if m == 5 {
        "May"@
    } else if m == 6 {
        "June"@
    } else if m == 7 {
        "July"@
    } else if m == 8 {
        "August"@
    } else if m == 9 {
        "September"@
    } else if m == 10 {
        "October"@
    } else if m == 11 {
        "November"@
    } else {
        "December"@
    }
}

fn month_name(m: u32) -> (r: &'static str)
    requires
        1 <= m <= 12,
    ensures
        r@ == month_name_text(m as int),
{
    if m == 1 {
        "January"
    } else if m == 2 {
        "February"
    } else if m == 3 {
        "March"
    } else if m == 4 {
        "April"
    } else if m == 5 {
        "May"
    } else if m == 6 {
        "June"
    } else if m == 7 {
        "July"
    } else if m == 8 {
        "August"
    } else if m == 9 {
        "September"
    } else if m == 10 {
        "October"
    } else if m == 11 {
        "November"
    } else {
        "December"
    }
}

/// The year, month and day on which a Unix time falls.
pub open spec fn civil_date(epoch: int) -> (int, int, int) {
    choose|t: (int, int, int)| #[trigger] is_date(t.0, t.1, t.2) && epoch_day(t.0, t.1, t.2) == epoch / 86400
}

proof fn civil_date_is(epoch: int, y: int, m: int, d: int)
    requires
        is_date(y, m, d),
        epoch_day(y, m, d) == epoch / 86400,
    ensures
        civil_date(epoch) == (y, m, d),
{
    let t = (y, m, d);
    assert(is_date(t.0, t.1, t.2) && epoch_day(t.0, t.1, t.2) == epoch / 86400);
    let c = civil_date(epoch);
    one_date_per_day(c.0, c.1, c.2, y, m, d);
}

/// The heading of the month in which an entry was listened to.
pub open spec fn month_text(epoch: Option<i64>) -> Seq<char> {
    match epoch {
        Some(e) => {
            let (y, m, d) = civil_date(e as int);
            month_name_text(m).push(' ') + text::signed_decimal(y)
        },
        None => "Unknown date"@,
    }
}

/// A "Month YYYY" heading for the history timeline (or "Unknown date").
pub fn fmt_month(epoch: Option<i64>) -> (r: String)
    ensures
        r@ == month_text(epoch),
{
    match epoch {
        Some(e) => {
            let (y, m, d) = civil_from_epoch(e);
            proof {
                civil_date_is(e as int, y as int, m as int, d as int);
            }
            let mut out = month_name(m).to_owned();
            out.push(' ');
            text::push_zero_padded(&mut out, y, 0);
            out
        },
        None => "Unknown date".to_owned(),
    }
}

/// The text of the day on which an entry was listened to.
pub open spec fn listened_text(epoch: i64) -> Seq<char> {
    let (y, m, d) = civil_date(epoch as int);
    date_text(y, m, d)
}

/// A short "YYYY-MM-DD" date for a history entry, if known.
pub fn fmt_date(epoch: Option<i64>) -> (r: Option<String>)
    ensures
        match epoch {
            Some(e) => r is Some && r->0@ == listened_text(e),
            None => r is None,
        },
{
    match epoch {
        Some(e) => {
            let (y, m, d) = civil_from_epoch(e);
            proof {
                civil_date_is(e as int, y as int, m as int, d as int);
            }
            let mut out = String::new();
            text::push_zero_padded(&mut out, y, 4);
            out.push('-');
            text::push_zero_padded(&mut out, m as i64, 2);
            out.push('-');
            text::push_zero_padded(&mut out, d as i64, 2);
            assert(out@ =~= date_text(y as int, m as int, d as int));
            Some(out)
        },
        None => None,
    }
}

/// The year, month and day that a text names, as three numbers between hyphens.
pub open spec fn written_date(s: Seq<char>) -> Option<(int, int, int)> {
    let parts = split_at(trimmed(s), '-');
    if parts.len() != 3 {
        None
    } else {
        match (
            text::parsed_in(trimmed(parts[0]), i64::MIN as int, i64::MAX as int),
            text::parsed_in(trimmed(parts[1]), 0, u32::MAX as int),
            text::parsed_in(trimmed(parts[2]), 0, u32::MAX as int),
        ) {
            (Some(y), Some(m), Some(d)) => if 1 <= m <= 12 && 1 <= d <= 31 {
                Some((y, m, d))
            } else {
                None
            },
            _ => None,
        }
    }
}

/// The Unix time of the midnight at which a written date begins, where 64 bits
/// can hold it.
pub open spec fn parsed_date(s: Seq<char>) -> Option<int> {
    match written_date(s) {
        Some((y, m, d)) => {
            let t = epoch_day(y, m, d) * 86400;
            if i64::MIN <= t <= i64::MAX {
                Some(t)
            } else {
                None
            }
        },
        None => None,
    }
}

/// Parse a "YYYY-MM-DD" date into Unix epoch seconds (UTC midnight).
pub fn parse_date(s: &str) -> (r: Option<i64>)
    ensures
        (match r {
            Some(t) => Some(t as int),
            None => None::<int>,
        }) == parsed_date(s@),
{
    let cs = text::chars_of(s);
    let n: usize = cs.len();
    assert(cs@.subrange(0, n as int) =~= s@);
    let (lo, hi) = text::trim_bounds(&cs, 0, n);
    let parts = text::split(&cs, lo, hi, '-');
    if parts.len() != 3 {
        return None;
    }
    let (a, b) = parts[0];
    let (a, b) = text::trim_bounds(&cs, a, b);
    let y = text::parse_i64(&cs, a, b);
    let (a, b) = parts[1];
    let (a, b) = text::trim_bounds(&cs, a, b);
    let m = text::parse_u32(&cs, a, b);
    let (a, b) = parts[2];
    let (a, b) = text::trim_bounds(&cs, a, b);
    let d = text::parse_u32(&cs, a, b);
    match (y, m, d) {
        (Some(y), Some(m), Some(d)) => {
            if m < 1 || m > 12 || d < 1 || d > 31 {
                return None;
            }
            let days: i128 = day_number(y, m, d);
            let t: i128 = days * 86_400;
            if t < -0x8000_0000_0000_0000 || t > 0x7fff_ffff_ffff_ffff {
                None
            } else {
                Some(t as i64)
            }
        },
        _ => None,
    }
}

/// A date that was written out is read back as the same date, from year 0 on.
/// (Before it the year's sign is taken for a separator.)
pub proof fn written_date_reads_back(y: int, m: int, d: int)
    requires
        0 <= y <= i64::MAX,
        is_date(y, m, d),
    ensures
        written_date(date_text(y, m, d)) == Some((y, m, d)),
{
    let ys = zero_padded(y, 4);
    let ms = zero_padded(m, 2);
    let ds = zero_padded(d, 2);
    text::zero_padded_spells(y as nat, 4);
    text::zero_padded_spells(m as nat, 2);
    text::zero_padded_spells(d as nat, 2);
    let s = date_text(y, m, d);
    assert(text::is_digit(ys[0]) && text::is_digit(ys.last()));
    assert(text::is_digit(ms[0]) && text::is_digit(ms.last()));
    assert(text::is_digit(ds[0]) && text::is_digit(ds.last()));
    assert(s[0] == ys[0]);
    assert(s.last() == ds.last());
    text::trimming_keeps(s);
    text::trimming_keeps(ys);
    text::trimming_keeps(ms);
    text::trimming_keeps(ds);
    no_hyphen(ys);
    no_hyphen(ms);
    no_hyphen(ds);
    text::split_without(ys, '-');
    text::split_append(ys, ms, '-');
    text::split_append(ys.push('-') + ms, ds, '-');
    assert(s =~= (ys.push('-') + ms).push('-') + ds);
    assert(split_at(s, '-') =~= seq![ys, ms, ds]);
    text::digits_parse(ys, i64::MIN as int, i64::MAX as int);
    text::digits_parse(ms, 0, u32::MAX as int);
    text::digits_parse(ds, 0, u32::MAX as int);
}

proof fn no_hyphen(s: Seq<char>)
    requires
        all_digits(s),
    ensures
        !s.contains('-'),
{
    if s.contains('-') {
        let i = choose|i: int| 0 <= i < s.len() && s[i] == '-';
        assert(text::is_digit(s[i]));
    }
}

/// Every Unix time has its civil date.
pub proof fn civil_date_exists(epoch: int)
    ensures
        is_date(civil_date(epoch).0, civil_date(epoch).1, civil_date(epoch).2),
        epoch_day(civil_date(epoch).0, civil_date(epoch).1, civil_date(epoch).2) == epoch / 86400,
{
    let z = epoch / 86400 + 719468;
    let era = z / 146097;
    let doe = z - era * 146097;
    date_of_cycle_day(era, doe);
    let yoe = (doe - doe / 1460 + doe / 36524 - doe / 146096) / 365;
    let doy = doe - (365 * yoe + yoe / 4 - yoe / 100);
    let mp = (5 * doy + 2) / 153;
    let d = doy - (153 * mp + 2) / 5 + 1;
    let m = if mp < 10 { mp + 3 } else { mp - 9 };
    let y = if m <= 2 { yoe + era * 400 + 1 } else { yoe + era * 400 };
    civil_date_is(epoch, y, m, d);
}

/// Showing the day of an entry and reading what is shown gives the midnight at
/// which that day began, for every time from year 0 on.
pub proof fn shown_date_reads_back(epoch: i64)
    requires
        epoch_day(0, 1, 1) * 86400 <= epoch,
    ensures
        parsed_date(listened_text(epoch)) == Some(epoch as int / 86400 * 86400),
{
    let (y, m, d) = civil_date(epoch as int);
    civil_date_exists(epoch as int);
    day_of_year_bound(y, m, d);
    if y < 0 {
        years_in_order(y + 1, 0);
        assert(days_before_month(0, 1) == 0);
        assert(false);
    }
    years_in_order(0, y);
    written_date_reads_back(y, m, d);
}

} // verus!
