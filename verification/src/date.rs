use vstd::prelude::*;
use vstd::string::*;

verus! {

/// A calendar date in the proleptic Gregorian calendar. The activity file
/// format stores years as exactly four digits, so valid dates range from
/// year 0 to year 9999.
#[derive(PartialEq, Eq, Structural, Debug, Clone, Copy)]
pub struct Date {
    pub year: u16,
    pub month: u8,
    pub day: u8,
}

/// A local wall-clock timestamp with one-second resolution, exactly what one
/// activity log line stores.
#[derive(PartialEq, Eq, Structural, Debug, Clone, Copy)]
pub struct Timestamp {
    pub date: Date,
    pub hour: u8,
    pub minute: u8,
    pub second: u8,
}

pub open spec fn is_leap_year(y: int) -> bool {
    y % 4 == 0 && (y % 100 != 0 || y % 400 == 0)
}

pub open spec fn days_in_year(y: int) -> int {
    if is_leap_year(y) {
        366
    } else {
        365
    }
}

pub open spec fn days_in_month(y: int, m: int) -> int {
    if m == 2 {
        if is_leap_year(y) {
            29
        } else {
            28
        }
    } else if m == 4 || m == 6 || m == 9 || m == 11 {
        30
    } else {
        31
    }
}

impl Date {
    pub open spec fn valid(self) -> bool {
        self.year <= 9999 && 1 <= self.month <= 12 && 1 <= self.day <= days_in_month(
            self.year as int,
            self.month as int,
        )
    }
}

impl Timestamp {
    pub open spec fn valid(self) -> bool {
        self.date.valid() && self.hour <= 23 && self.minute <= 59 && self.second <= 59
    }
}

/// Days in all years before `y`, counted from 0000-01-01.
pub open spec fn days_before_year(y: int) -> int
    decreases y,
{
    if y <= 0 {
        0
    } else {
        days_before_year(y - 1) + days_in_year(y - 1)
    }
}

/// Days in all months of year `y` before month `m`.
pub open spec fn days_before_month(y: int, m: int) -> int
    decreases m,
{
    if m <= 1 {
        0
    } else {
        days_before_month(y, m - 1) + days_in_month(y, m - 1)
    }
}

/// Position of a date in the calendar: 0000-01-01 is day zero, and
/// consecutive dates get consecutive numbers. Orders dates chronologically.
pub open spec fn day_number(d: Date) -> int {
    days_before_year(d.year as int) + days_before_month(d.year as int, d.month as int) + d.day - 1
}

pub open spec fn date_le(a: Date, b: Date) -> bool {
    day_number(a) <= day_number(b)
}

/// The last representable date.
pub open spec fn last_date() -> Date {
    Date { year: 9999, month: 12, day: 31 }
}

// ---------------------------------------------------------------------------
// Lemmas
// ---------------------------------------------------------------------------

pub proof fn lemma_days_before_year_bounds(y: int)
    requires
        y >= 0,
    ensures
        365 * y <= days_before_year(y) <= 366 * y,
    decreases y,
{
    if y > 0 {
        lemma_days_before_year_bounds(y - 1);
    }
}

pub proof fn lemma_days_before_year_monotone(y1: int, y2: int)
    requires
        0 <= y1 <= y2,
    ensures
        days_before_year(y1) <= days_before_year(y2),
    decreases y2 - y1,
{
    if y1 < y2 {
        lemma_days_before_year_monotone(y1, y2 - 1);
    }
}

pub proof fn lemma_days_before_month_monotone(y: int, m1: int, m2: int)
    requires
        m1 <= m2,
    ensures
        days_before_month(y, m1) <= days_before_month(y, m2),
    decreases m2 - m1,
{
    if m1 < m2 {
        lemma_days_before_month_monotone(y, m1, m2 - 1);
    }
}

/// The months of a year exactly fill the year.
pub proof fn lemma_year_months(y: int)
    ensures
        days_before_month(y, 13) == days_in_year(y),
{
    reveal_with_fuel(days_before_month, 14);
}

/// A valid date's number lies between the numbers of the first and the last
/// representable dates.
pub proof fn lemma_day_number_range(d: Date)
    requires
        d.valid(),
    ensures
        0 <= day_number(d),
        day_number(d) < days_before_year(d.year + 1),
        day_number(d) <= day_number(last_date()),
        day_number(last_date()) == days_before_year(10000) - 1,
        day_number(last_date()) < 3660000,
{
    lemma_days_before_year_bounds(d.year as int);
    lemma_days_before_year_bounds(10000);
    lemma_days_before_month_monotone(d.year as int, 1, d.month as int);
    lemma_days_before_month_monotone(d.year as int, d.month + 1, 13);
    lemma_year_months(d.year as int);
    assert(days_before_month(d.year as int, d.month + 1) == days_before_month(
        d.year as int,
        d.month as int,
    ) + days_in_month(d.year as int, d.month as int));
    assert(day_number(d) < days_before_year(d.year as int) + days_in_year(d.year as int));
    lemma_days_before_year_monotone(d.year + 1, 10000);
    // the last date itself
    lemma_year_months(9999);
    reveal_with_fuel(days_before_month, 14);
    assert(days_before_month(9999, 13) == 365);
    assert(days_before_month(9999, 12) == 334);
    assert(day_number(last_date()) == days_before_year(9999) + 364);
    lemma_days_before_year_bounds(9999);
}

/// Chronological order of dates implies order of their (year, month) pairs.
pub proof fn lemma_month_order(a: Date, b: Date)
    requires
        a.valid(),
        b.valid(),
        date_le(a, b),
    ensures
        a.year * 12 + a.month <= b.year * 12 + b.month,
{
    if a.year * 12 + a.month > b.year * 12 + b.month {
        lemma_day_number_range(a);
        lemma_day_number_range(b);
        if a.year > b.year {
            lemma_days_before_year_monotone(b.year + 1, a.year as int);
            lemma_days_before_month_monotone(a.year as int, 1, a.month as int);
            assert(day_number(a) >= days_before_year(a.year as int));
            assert(day_number(b) < days_before_year(b.year + 1));
            assert(false);
        } else {
            assert(a.year == b.year && a.month > b.month);
            lemma_days_before_month_monotone(a.year as int, b.month + 1, a.month as int);
            assert(days_before_month(a.year as int, b.month + 1) == days_before_month(
                a.year as int,
                b.month as int,
            ) + days_in_month(a.year as int, b.month as int));
            assert(false);
        }
    }
}

// ---------------------------------------------------------------------------
// Executable calendar arithmetic
// ---------------------------------------------------------------------------

pub fn leap_year(y: u16) -> (r: bool)
    ensures
        r == is_leap_year(y as int),
{
    y % 4 == 0 && (y % 100 != 0 || y % 400 == 0)
}

pub fn month_days(y: u16, m: u8) -> (r: u8)
    ensures
        r == days_in_month(y as int, m as int),
{
    if m == 2 {
        if leap_year(y) {
            29
        } else {
            28
        }
    } else if m == 4 || m == 6 || m == 9 || m == 11 {
        30
    } else {
        31
    }
}

pub fn date_valid(d: &Date) -> (r: bool)
    ensures
        r == d.valid(),
{
    d.year <= 9999 && 1 <= d.month && d.month <= 12 && 1 <= d.day && d.day <= month_days(
        d.year,
        d.month,
    )
}

pub fn timestamp_valid(t: &Timestamp) -> (r: bool)
    ensures
        r == t.valid(),
{
    date_valid(&t.date) && t.hour <= 23 && t.minute <= 59 && t.second <= 59
}

fn year_days_before(y: u16) -> (r: u32)
    requires
        y <= 10000,
    ensures
        r == days_before_year(y as int),
{
    let mut acc: u32 = 0;
    let mut i: u16 = 0;
    while i < y
        invariant
            0 <= i <= y <= 10000,
            acc == days_before_year(i as int),
        decreases y - i,
    {
        proof {
            lemma_days_before_year_bounds(i as int);
        }
        if leap_year(i) {
            acc = acc + 366;
        } else {
            acc = acc + 365;
        }
        i = i + 1;
    }
    acc
}

fn month_days_before(y: u16, m: u8) -> (r: u32)
    requires
        1 <= m <= 13,
    ensures
        r == days_before_month(y as int, m as int),
        r <= 366,
{
    let mut acc: u32 = 0;
    let mut i: u8 = 1;
    while i < m
        invariant
            1 <= i <= m <= 13,
            acc == days_before_month(y as int, i as int),
        decreases m - i,
    {
        proof {
            lemma_days_before_month_monotone(y as int, i as int, 13);
            lemma_year_months(y as int);
        }
        acc = acc + month_days(y, i) as u32;
        proof {
            lemma_days_before_month_monotone(y as int, (i + 1) as int, 13);
            lemma_year_months(y as int);
        }
        i = i + 1;
    }
    proof {
        lemma_days_before_month_monotone(y as int, m as int, 13);
        lemma_year_months(y as int);
    }
    acc
}

pub fn day_number_of(d: &Date) -> (r: u32)
    requires
        d.valid(),
    ensures
        r == day_number(*d),
{
    proof {
        lemma_day_number_range(*d);
        lemma_days_before_year_bounds(d.year as int);
    }
    year_days_before(d.year) + month_days_before(d.year, d.month) + (d.day - 1) as u32
}

pub fn date_le_exec(a: &Date, b: &Date) -> (r: bool)
    requires
        a.valid(),
        b.valid(),
    ensures
        r == date_le(*a, *b),
{
    day_number_of(a) <= day_number_of(b)
}

/// The date with the given day number: the inverse of `day_number` on valid
/// dates.
pub fn date_from_day_number(n: u32) -> (r: Date)
    requires
        n <= day_number(last_date()),
    ensures
        r.valid(),
        day_number(r) == n,
{
    proof {
        lemma_day_number_range(last_date());
    }
    let mut y: u16 = 0;
    let mut acc: u32 = 0;
    let mut ydays: u32 = if leap_year(y) {
        366
    } else {
        365
    };
    while acc + ydays <= n
        invariant
            y <= 9999,
            acc == days_before_year(y as int),
            acc <= n <= day_number(last_date()),
            day_number(last_date()) == days_before_year(10000) - 1,
            day_number(last_date()) < 3660000,
            ydays == days_in_year(y as int),
        decreases n - acc,
    {
        proof {
            if y == 9999 {
                assert(days_before_year(10000) == days_before_year(9999) + days_in_year(9999));
                assert(false);
            }
        }
        acc = acc + ydays;
        y = y + 1;
        ydays = if leap_year(y) {
            366
        } else {
            365
        };
    }
    let rem: u32 = n - acc;
    assert(rem < days_in_year(y as int));
    let mut m: u8 = 1;
    let mut macc: u32 = 0;
    while macc + month_days(y, m) as u32 <= rem
        invariant
            1 <= m <= 12,
            macc == days_before_month(y as int, m as int),
            macc <= rem < days_in_year(y as int),
        decreases rem - macc,
    {
        proof {
            lemma_year_months(y as int);
            if m == 12 {
                assert(days_before_month(y as int, 13) == days_before_month(y as int, 12)
                    + days_in_month(y as int, 12));
                assert(false);
            }
        }
        macc = macc + month_days(y, m) as u32;
        m = m + 1;
    }
    let day: u8 = ((rem - macc) as u8) + 1;
    Date { year: y, month: m, day }
}

// ---------------------------------------------------------------------------
// Weekdays
// ---------------------------------------------------------------------------

/// Day of the week of a date, with Monday as 0 and Sunday as 6.
/// 0000-01-01 of the proleptic Gregorian calendar was a Saturday, so day
/// number 0 maps to index 5.
pub open spec fn weekday_index(d: Date) -> int {
    (day_number(d) + 5) % 7
}

pub fn weekday_of(d: &Date) -> (r: u8)
    requires
        d.valid(),
    ensures
        r == weekday_index(*d),
        r < 7,
{
    proof {
        lemma_day_number_range(*d);
    }
    ((day_number_of(d) + 5) % 7) as u8
}

/// Three-letter English weekday abbreviation for an index (Monday as 0).
pub open spec fn spec_weekday_abbrev(i: int) -> Seq<char> {
    if i == 0 {
        "Mon"@
    } else if i == 1 {
        "Tue"@
    } else if i == 2 {
        "Wed"@
    } else if i == 3 {
        "Thu"@
    } else if i == 4 {
        "Fri"@
    } else if i == 5 {
        "Sat"@
    } else {
        "Sun"@
    }
}

pub fn weekday_abbrev(i: u8) -> (r: &'static str)
    requires
        i < 7,
    ensures
        r@ == spec_weekday_abbrev(i as int),
{
    match i {
        0 => "Mon",
        1 => "Tue",
        2 => "Wed",
        3 => "Thu",
        4 => "Fri",
        5 => "Sat",
        _ => "Sun",
    }
}

} // verus!
