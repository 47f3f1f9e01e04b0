//! Dates of the Gregorian calendar.
use vstd::prelude::*;

use crate::order::{text_less, text_less_behind, text_less_common};
use crate::text::{decimal, digit_char, two_digits, u64_text};

verus! {

/// Whether the year has a 29th of February.
pub open spec fn is_leap(y: int) -> bool {
    y % 4 == 0 && (y % 100 != 0 || y % 400 == 0)
}

/// The number of days of a month.
pub open spec fn month_length(y: int, m: int) -> int {
    if m == 2 {
        if is_leap(y) {
            29
        } else {
            28
        }
    } else if m == 4 || m == 6 || m == 9 || m == 11 {
        30
    } else {
        31
    }
}

/// The number of days of a year before the month.
pub open spec fn days_before_month(y: int, m: int) -> int
    decreases m,
{
    if m <= 1 {
        0
    } else {
        days_before_month(y, m - 1) + month_length(y, m - 1)
    }
}

/// The number of days from the start of year 0 to the start of the year, up to a constant.
pub open spec fn days_before_year(y: int) -> int {
    365 * y + (y - 1) / 4 - (y - 1) / 100 + (y - 1) / 400
}

/// Whether there is such a date.
pub open spec fn is_date(y: int, m: int, d: int) -> bool {
    1 <= m <= 12 && 1 <= d <= month_length(y, m)
}

/// The number of days from the first of January 1970 to the date.
pub open spec fn day_number(y: int, m: int, d: int) -> int {
    days_before_year(y) - days_before_year(1970) + days_before_month(y, m) + d - 1
}

/// The first day whose year can be written in 32 bits.
pub const FIRST_DAY: i64 = -784_353_015_833;

/// The last day whose year can be written in 32 bits.
pub const LAST_DAY: i64 = 784_351_576_776;

/// A year is as long as its months: 366 days where it is a leap year, and 365 otherwise.
pub proof fn year_length(y: int)
    ensures
        days_before_year(y + 1) - days_before_year(y) == days_before_month(y, 13),
        days_before_month(y, 13) == (if is_leap(y) {
            366int
        } else {
            365
        }),
{
    reveal_with_fuel(days_before_month, 14);
}

proof fn lemma_month_start(y: int, m: int)
    requires
        1 <= m <= 12,
    ensures
        days_before_month(y, m) == (if m == 1 {
            0
        } else if m == 2 {
            31
        } else {
            (if is_leap(y) {
                60int
            } else {
                59int
            }) + (153 * (m - 3) + 2) / 5
        }),
{
    reveal_with_fuel(days_before_month, 13);
}

/// The number of days of a cycle of 400 years, started in March, before a year of it.
spec fn cycle_start(yoe: int) -> int {
    365 * yoe + yoe / 4 - yoe / 100
}

proof fn lemma_year_of_cycle(doe: int, yoe: int)
    requires
        0 <= doe < 146097,
        yoe == (doe - doe / 1460 + doe / 36524 - doe / 146096) / 365,
    ensures
        0 <= yoe < 400,
        cycle_start(yoe) <= doe,
        doe - cycle_start(yoe) <= 365,
        doe - cycle_start(yoe) == 365 ==> is_leap(yoe + 1),
{
    let c = if doe == 146096 {
        3
    } else {
        doe / 36524
    };
    let r = doe - 36524 * c;
    let q = r / 1461;
    let s = r - 1461 * q;
    assert(0 <= c <= 3);
    assert(0 <= r <= 36524);
    assert(0 <= q <= 24);
    assert(0 <= s <= 1460);
}

proof fn lemma_month_of_year(doy: int, mp: int)
    requires
        0 <= doy <= 365,
        mp == (5 * doy + 2) / 153,
    ensures
        0 <= mp <= 11,
        (153 * mp + 2) / 5 <= doy,
        doy - (153 * mp + 2) / 5 < (if mp == 11 {
            29int
        } else if mp == 1 || mp == 3 || mp == 6 || mp == 8 {
            30int
        } else {
            31int
        }),
        mp == 11 && doy - (153 * mp + 2) / 5 == 28 ==> doy == 365,
{
}

proof fn lemma_years_grow(a: int, b: int)
    requires
        a <= b,
    ensures
        days_before_year(a) <= days_before_year(b),
    decreases b - a,
{
    if a < b {
        year_length(b - 1);
        lemma_years_grow(a, b - 1);
    }
}

proof fn lemma_months_grow(y: int, a: int, b: int)
    requires
        1 <= a <= b,
    ensures
        days_before_month(y, a) <= days_before_month(y, b),
        a < b ==> days_before_month(y, a) + month_length(y, a) <= days_before_month(y, b),
    decreases b - a,
{
    if a < b {
        lemma_months_grow(y, a, b - 1);
    }
}

/// A date is later than another exactly when its number is greater: by year, then by month, then by
/// day.
pub proof fn later_dates_have_greater_numbers(
    y1: int,
    m1: int,
    d1: int,
    y2: int,
    m2: int,
    d2: int,
)
    requires
        is_date(y1, m1, d1),
        is_date(y2, m2, d2),
        y1 < y2 || (y1 == y2 && (m1 < m2 || (m1 == m2 && d1 < d2))),
    ensures
        day_number(y1, m1, d1) < day_number(y2, m2, d2),
{
    if y1 < y2 {
        lemma_years_grow(y1 + 1, y2);
        year_length(y1);
        lemma_months_grow(y1, m1, 13);
        lemma_months_grow(y2, 1, m2);
    } else if m1 < m2 {
        lemma_months_grow(y1, m1, m2);
    }
}

/// No two dates have the same number.
pub proof fn dates_are_unique(y1: int, m1: int, d1: int, y2: int, m2: int, d2: int)
    requires
        is_date(y1, m1, d1),
        is_date(y2, m2, d2),
        day_number(y1, m1, d1) == day_number(y2, m2, d2),
    ensures
        y1 == y2,
        m1 == m2,
        d1 == d2,
{
    if y1 < y2 || (y1 == y2 && (m1 < m2 || (m1 == m2 && d1 < d2))) {
        later_dates_have_greater_numbers(y1, m1, d1, y2, m2, d2);
    } else if y2 < y1 || (y1 == y2 && (m2 < m1 || (m1 == m2 && d2 < d1))) {
        later_dates_have_greater_numbers(y2, m2, d2, y1, m1, d1);
    }
}

/// Whether the date has the number.
pub open spec fn is_numbered(date: (int, int, int), days: int) -> bool {
    is_date(date.0, date.1, date.2) && day_number(date.0, date.1, date.2) == days
}

/// The date with the number.
pub open spec fn date_of(days: int) -> (int, int, int) {
    choose|date: (int, int, int)| is_numbered(date, days)
}

/// The year, month and day that lie the given number of days after the first of January 1970.
pub fn epoch_days_to_ymd(days: i64) -> (res: (i32, u32, u32))
    requires
        FIRST_DAY <= days <= LAST_DAY,
    ensures
        is_date(res.0 as int, res.1 as int, res.2 as int),
        day_number(res.0 as int, res.1 as int, res.2 as int) == days,
        (res.0 as int, res.1 as int, res.2 as int) == date_of(days as int),
{
    let z: i64 = days + 719_468;
    let era: i64 = if z >= 0 {
        z / 146_097
    } else {
        -((146_096 - z) / 146_097)
    };
    proof {
        lemma_era(z as int, era as int);
    }
    let doe: i64 = z - era * 146_097;
    let yoe: i64 = (doe - doe / 1460 + doe / 36524 - doe / 146_096) / 365;
    proof {
        lemma_year_of_cycle(doe as int, yoe as int);
    }
    let doy: i64 = doe - (365 * yoe + yoe / 4 - yoe / 100);
    let mp: i64 = (5 * doy + 2) / 153;
    proof {
        lemma_month_of_year(doy as int, mp as int);
    }
    let d: i64 = doy - (153 * mp + 2) / 5 + 1;
    let m: i64 = if mp < 10 {
        mp + 3
    } else {
        mp - 9
    };
    let y0: i64 = yoe + era * 400;
    let y: i64 = if m <= 2 {
        y0 + 1
    } else {
        y0
    };
    proof {
        let date = (y as int, m as int, d as int);
        lemma_date(
            days as int,
            era as int,
            yoe as int,
            doy as int,
            mp as int,
            date.0,
            date.1,
            date.2,
        );
        lemma_year_fits(y as int, m as int, d as int);
        assert(is_numbered(date, days as int));
        let chosen = date_of(days as int);
        dates_are_unique(date.0, date.1, date.2, chosen.0, chosen.1, chosen.2);
    }
    (y as i32, m as u32, d as u32)
}

proof fn lemma_before(y: int)
    ensures
        (y - 1) / 4 == y / 4 - (if y % 4 == 0 {
            1int
        } else {
            0
        }),
        (y - 1) / 100 == y / 100 - (if y % 100 == 0 {
            1int
        } else {
            0
        }),
        (y - 1) / 400 == y / 400 - (if y % 400 == 0 {
            1int
        } else {
            0
        }),
        y % 400 == 0 ==> y % 100 == 0,
        y % 100 == 0 ==> y % 4 == 0,
{
}

proof fn lemma_shift(era: int, yoe: int)
    ensures
        (yoe + era * 400) / 4 == yoe / 4 + era * 100,
        (yoe + era * 400) / 100 == yoe / 100 + era * 4,
        (yoe + era * 400) / 400 == yoe / 400 + era,
        (yoe + era * 400) % 4 == yoe % 4,
        (yoe + era * 400) % 100 == yoe % 100,
        (yoe + era * 400) % 400 == yoe % 400,
{
}

proof fn lemma_cycle(era: int, yoe: int)
    requires
        0 <= yoe < 400,
    ensures
        ({
            let y0 = yoe + era * 400;
            &&& days_before_year(y0) + (if is_leap(y0) {
                1int
            } else {
                0
            }) == era * 146097 + cycle_start(yoe)
            &&& days_before_year(y0 + 1) == era * 146097 + cycle_start(yoe) + 365
            &&& is_leap(y0 + 1) == is_leap(yoe + 1)
        }),
{
    lemma_shift(era, yoe);
    lemma_shift(era, yoe + 1);
    lemma_before(yoe + era * 400);
    assert(yoe / 400 == 0);
}

proof fn lemma_era(z: int, era: int)
    requires
        z >= 0 ==> era == z / 146097,
        z < 0 ==> era == -((146096 - z) / 146097),
    ensures
        0 <= z - era * 146097 < 146097,
{
}

proof fn lemma_date(days: int, era: int, yoe: int, doy: int, mp: int, y: int, m: int, d: int)
    requires
        days + 719468 == era * 146097 + cycle_start(yoe) + doy,
        0 <= yoe < 400,
        0 <= doy <= 365,
        doy == 365 ==> is_leap(yoe + 1),
        mp == (5 * doy + 2) / 153,
        d == doy - (153 * mp + 2) / 5 + 1,
        m == (if mp < 10 {
            mp + 3
        } else {
            mp - 9
        }),
        y == yoe + era * 400 + (if m <= 2 {
            1int
        } else {
            0
        }),
    ensures
        is_date(y, m, d),
        day_number(y, m, d) == days,
{
    lemma_month_of_year(doy, mp);
    lemma_month_start(y, m);
    lemma_cycle(era, yoe);
    assert(days_before_year(1970) == 719527);
}

proof fn lemma_year_fits(y: int, m: int, d: int)
    requires
        is_date(y, m, d),
        FIRST_DAY <= day_number(y, m, d) <= LAST_DAY,
    ensures
        i32::MIN <= y <= i32::MAX,
{
    if y > i32::MAX {
        later_dates_have_greater_numbers(i32::MAX as int, 12, 31, y, m, d);
        lemma_month_start(i32::MAX as int, 12);
    }
    if y < i32::MIN {
        later_dates_have_greater_numbers(y, m, d, i32::MIN as int, 1, 1);
        lemma_month_start(i32::MIN as int, 1);
    }
}

/// A moment in seconds since the Unix epoch, as year, month, day, hours, minutes and seconds UTC.
pub open spec fn timestamp(epoch_secs: nat) -> Seq<char> {
    let date = date_of((epoch_secs / 86400) as int);
    let time = epoch_secs % 86400;
    decimal(date.0 as nat) + seq!['-'] + two_digits(date.1 as nat) + seq!['-'] + two_digits(
        date.2 as nat,
    ) + seq!['_'] + two_digits(time / 3600) + seq!['-'] + two_digits((time % 3600) / 60) + seq![
        '-',
    ] + two_digits(time % 60)
}

fn push_two(out: &mut String, n: u32)
    requires
        n < 100,
    ensures
        final(out)@ == old(out)@ + two_digits(n as nat),
{
    out.push((n as u8 / 10 + 48) as char);
    out.push((n as u8 % 10 + 48) as char);
    assert(out@ =~= old(out)@ + two_digits(n as nat));
}

/// The moment as `YYYY-MM-DD_HH-MM-SS`.
pub fn chrono_timestamp(epoch_secs: u64) -> (res: String)
    requires
        epoch_secs / 86400 <= LAST_DAY,
    ensures
        res@ == timestamp(epoch_secs as nat),
{
    let days: u64 = epoch_secs / 86400;
    let time: u32 = (epoch_secs % 86400) as u32;
    let (y, m, d) = epoch_days_to_ymd(days as i64);
    proof {
        if y < 1970 {
            later_dates_have_greater_numbers(y as int, m as int, d as int, 1970, 1, 1);
            lemma_month_start(1970, 1);
        }
    }
    let mut out = u64_text(y as u64);
    out.push('-');
    push_two(&mut out, m);
    out.push('-');
    push_two(&mut out, d);
    out.push('_');
    push_two(&mut out, time / 3600);
    out.push('-');
    push_two(&mut out, (time % 3600) / 60);
    out.push('-');
    push_two(&mut out, time % 60);
    assert(out@ =~= timestamp(epoch_secs as nat));
    out
}

/// Whether the year of a moment has four digits.
pub open spec fn has_four_digit_year(epoch_secs: nat) -> bool {
    date_of((epoch_secs / 86400) as int).0 < 10000
}

/// Every number has a date.
pub proof fn every_day_has_a_date(days: int)
    ensures
        is_numbered(date_of(days), days),
{
    let z = days + 719468;
    let era = z / 146097;
    let doe = z % 146097;
    let yoe = (doe - doe / 1460 + doe / 36524 - doe / 146096) / 365;
    lemma_year_of_cycle(doe, yoe);
    let doy = doe - cycle_start(yoe);
    let mp = (5 * doy + 2) / 153;
    let d = doy - (153 * mp + 2) / 5 + 1;
    let m = if mp < 10 {
        mp + 3
    } else {
        mp - 9
    };
    let y = yoe + era * 400 + (if m <= 2 {
        1int
    } else {
        0
    });
    lemma_date(days, era, yoe, doy, mp, y, m, d);
    assert(is_numbered((y, m, d), days));
}

proof fn lemma_two_digits(a: nat, b: nat)
    requires
        a < b < 100,
    ensures
        text_less(two_digits(a), two_digits(b)),
{
    let x = two_digits(a);
    let y = two_digits(b);
    assert(x.drop_first() =~= seq![digit_char(a % 10)]);
    assert(y.drop_first() =~= seq![digit_char(b % 10)]);
    assert(text_less(x.drop_first(), y.drop_first()) == (a % 10 < b % 10)) by {
        reveal_with_fuel(text_less, 2);
    }
}

proof fn lemma_four_digits(n: nat)
    requires
        1000 <= n < 10000,
    ensures
        decimal(n) == two_digits(n / 100) + two_digits(n % 100),
{
    reveal_with_fuel(decimal, 5);
    assert(n / 10 / 10 == n / 100);
    assert(n / 10 / 10 / 10 == n / 100 / 10);
    assert(decimal(n) =~= two_digits(n / 100) + two_digits(n % 100));
}

proof fn lemma_year_order(a: nat, b: nat)
    requires
        1000 <= a < b < 10000,
    ensures
        decimal(a).len() == 4,
        decimal(b).len() == 4,
        text_less(decimal(a), decimal(b)),
{
    lemma_four_digits(a);
    lemma_four_digits(b);
    if a / 100 < b / 100 {
        lemma_two_digits(a / 100, b / 100);
        text_less_behind(
            two_digits(a / 100),
            two_digits(b / 100),
            two_digits(a % 100),
            two_digits(b % 100),
        );
    } else {
        lemma_two_digits(a % 100, b % 100);
        text_less_common(two_digits(a / 100), two_digits(a % 100), two_digits(b % 100));
    }
}

/// The fields of a moment: year, month, day, hours, minutes and seconds.
spec fn fields(epoch_secs: nat) -> Seq<nat> {
    let date = date_of((epoch_secs / 86400) as int);
    let time = epoch_secs % 86400;
    seq![
        date.0 as nat,
        date.1 as nat,
        date.2 as nat,
        time / 3600,
        (time % 3600) / 60,
        time % 60,
    ]
}

/// The text of the fields from the one at `k` on, and what stands between them.
spec fn fields_text(f: Seq<nat>, k: nat) -> Seq<char>
    decreases 6 - k,
{
    let field = if k == 0 {
        decimal(f[0])
    } else {
        two_digits(f[k as int])
    };
    if k >= 5 {
        field
    } else {
        field + (seq![if k == 2 {
            '_'
        } else {
            '-'
        }] + fields_text(f, k + 1))
    }
}

proof fn lemma_fields_order(a: Seq<nat>, b: Seq<nat>, k: nat, at: nat)
    requires
        k <= at < 6,
        1000 <= a[0] < 10000,
        1000 <= b[0] < 10000,
        forall|i: int| 0 < i < 6 ==> #[trigger] a[i] < 100,
        forall|i: int| 0 < i < 6 ==> #[trigger] b[i] < 100,
        forall|i: int| k <= i < at ==> #[trigger] a[i] == b[i],
        a[at as int] < b[at as int],
    ensures
        text_less(fields_text(a, k), fields_text(b, k)),
    decreases 6 - k,
{
    let sep = seq![if k == 2 {
        '_'
    } else {
        '-'
    }];
    let fa = if k == 0 {
        decimal(a[0])
    } else {
        two_digits(a[k as int])
    };
    let fb = if k == 0 {
        decimal(b[0])
    } else {
        two_digits(b[k as int])
    };
    if k == at {
        if k == 0 {
            lemma_year_order(a[0], b[0]);
        } else {
            lemma_two_digits(a[k as int], b[k as int]);
        }
        if k < 5 {
            text_less_behind(fa, fb, sep + fields_text(a, k + 1), sep + fields_text(b, k + 1));
        }
    } else {
        lemma_fields_order(a, b, k + 1, at);
        text_less_common(sep, fields_text(a, k + 1), fields_text(b, k + 1));
        assert(a[k as int] == b[k as int]);
        text_less_common(fa, sep + fields_text(a, k + 1), sep + fields_text(b, k + 1));
    }
}

proof fn lemma_timestamp_fields(epoch_secs: nat)
    ensures
        timestamp(epoch_secs) == fields_text(fields(epoch_secs), 0),
{
    reveal_with_fuel(fields_text, 7);
    assert(timestamp(epoch_secs) =~= fields_text(fields(epoch_secs), 0));
}

/// The texts of later moments are greater and of the same length, as long as years have four digits.
pub proof fn timestamps_sort(earlier: nat, later: nat)
    requires
        earlier < later,
        has_four_digit_year(later),
    ensures
        text_less(timestamp(earlier), timestamp(later)),
        timestamp(earlier).len() == timestamp(later).len(),
{
    let a = fields(earlier);
    let b = fields(later);
    let da = (earlier / 86400) as int;
    let db = (later / 86400) as int;
    let x = date_of(da);
    let y = date_of(db);
    every_day_has_a_date(da);
    every_day_has_a_date(db);
    assert(days_before_year(1970) - days_before_year(1970) + days_before_month(1970, 1) + 1 - 1
        == 0);
    if x.0 < 1970 {
        later_dates_have_greater_numbers(x.0, x.1, x.2, 1970, 1, 1);
    }
    if y.0 < 1970 {
        later_dates_have_greater_numbers(y.0, y.1, y.2, 1970, 1, 1);
    }
    assert(da <= db);
    if da < db {
        if y.0 < x.0 || (x.0 == y.0 && (y.1 < x.1 || (x.1 == y.1 && y.2 < x.2))) {
            later_dates_have_greater_numbers(y.0, y.1, y.2, x.0, x.1, x.2);
        }
    }
    let ta = earlier % 86400;
    let tb = later % 86400;
    let at: nat = if a[0] != b[0] {
        0
    } else if a[1] != b[1] {
        1
    } else if a[2] != b[2] {
        2
    } else if a[3] != b[3] {
        3
    } else if a[4] != b[4] {
        4
    } else {
        5
    };
    if da == db {
        assert(ta < tb);
        assert(a[3] <= b[3]);
        assert(a[3] == b[3] ==> a[4] <= b[4]);
        assert(a[3] == b[3] && a[4] == b[4] ==> a[5] < b[5]);
    }
    assert(a[at as int] < b[at as int]);
    lemma_timestamp_fields(earlier);
    lemma_timestamp_fields(later);
    lemma_fields_order(a, b, 0, at);
    lemma_four_digits(a[0]);
    lemma_four_digits(b[0]);
}

// ---------------------------------------------------------------------------------------------
// What the calendar comes to
// ---------------------------------------------------------------------------------------------

/// Every fourth year is a leap year, but of the last years of the centuries only every fourth is.
pub proof fn leap_years(y: int, c: int)
    ensures
        y % 4 != 0 ==> !is_leap(y),
        y % 4 == 0 && y % 100 != 0 ==> is_leap(y),
        is_leap(100 * c) <==> c % 4 == 0,
        is_leap(y + 400) == is_leap(y),
{
    if c % 4 == 0 {
        assert(100 * c == 400 * (c / 4));
    }
}

/// The months have their lengths.
pub proof fn lengths_of_the_months(y: int)
    ensures
        month_length(y, 1) == 31,
        is_leap(y) ==> month_length(y, 2) == 29,
        !is_leap(y) ==> month_length(y, 2) == 28,
        month_length(y, 3) == 31,
        month_length(y, 4) == 30,
        month_length(y, 5) == 31,
        month_length(y, 6) == 30,
        month_length(y, 7) == 31,
        month_length(y, 8) == 31,
        month_length(y, 9) == 30,
        month_length(y, 10) == 31,
        month_length(y, 11) == 30,
        month_length(y, 12) == 31,
{
}

/// Days are counted from the first of January 1970. The next day has the next number: it is in the
/// same month, or the first of the next one, or the first of the next year.
pub proof fn days_are_counted(y: int, m: int, d: int)
    requires
        is_date(y, m, d),
    ensures
        day_number(1970, 1, 1) == 0,
        d < month_length(y, m) ==> is_date(y, m, d + 1) && day_number(y, m, d + 1) == day_number(
            y,
            m,
            d,
        ) + 1,
        d == month_length(y, m) && m < 12 ==> is_date(y, m + 1, 1) && day_number(y, m + 1, 1)
            == day_number(y, m, d) + 1,
        d == month_length(y, m) && m == 12 ==> is_date(y + 1, 1, 1) && day_number(y + 1, 1, 1)
            == day_number(y, m, d) + 1,
{
    year_length(y);
    assert(days_before_month(y, 13) == days_before_month(y, 12) + month_length(y, 12));
    assert(days_before_month(y + 1, 1) == 0);
    assert(days_before_month(1970, 1) == 0);
}

/// A moment is written as its date and its time of day.
pub proof fn moments_are_written(y: int, m: int, d: int, hour: nat, minute: nat, second: nat)
    requires
        is_date(y, m, d),
        day_number(y, m, d) >= 0,
        hour < 24,
        minute < 60,
        second < 60,
    ensures
        timestamp((day_number(y, m, d) * 86400 + hour * 3600 + minute * 60 + second) as nat)
            == decimal(y as nat) + seq!['-'] + two_digits(m as nat) + seq!['-'] + two_digits(
            d as nat,
        ) + seq!['_'] + two_digits(hour) + seq!['-'] + two_digits(minute) + seq!['-'] + two_digits(
            second,
        ),
{
    let days = day_number(y, m, d);
    lemma_time_of_day(days, hour, minute, second);
    let date = date_of(days);
    every_day_has_a_date(days);
    dates_are_unique(y, m, d, date.0, date.1, date.2);
}

proof fn lemma_time_of_day(days: int, hour: nat, minute: nat, second: nat)
    requires
        days >= 0,
        hour < 24,
        minute < 60,
        second < 60,
    ensures
        ({
            let secs = (days * 86400 + hour * 3600 + minute * 60 + second) as nat;
            let time = secs % 86400;
            &&& secs / 86400 == days
            &&& time / 3600 == hour
            &&& (time % 3600) / 60 == minute
            &&& time % 60 == second
        }),
{
}

} // verus!
