use vstd::prelude::*;

use vstd::arithmetic::div_mod::{lemma_fundamental_div_mod, lemma_fundamental_div_mod_converse};

verus! {

/// Whether `y` is a leap year of the Gregorian calendar.
pub open spec fn is_leap_year(y: int) -> bool {
    (y % 4 == 0 && y % 100 != 0) || y % 400 == 0
}

/// The number of days of the year `y`.
pub open spec fn days_in_year(y: int) -> int {
    if is_leap_year(y) {
        366
    } else {
        365
    }
}

/// The number of days of month `m` (1..=12) of the year `y`.
pub open spec fn days_in_month(y: int, m: int) -> int {
    if m == 2 {
        if is_leap_year(y) {
            29
        } else {
            28
        }
    } else if m == 4 || m == 6 || m == 9 || m == 11 {
        30
    } else {
        31
    }
}

/// The number of leap years among the years 1..=n.
pub open spec fn leap_years_through(n: int) -> int {
    n / 4 - n / 100 + n / 400
}

/// The number of days from 1970-01-01 to the first of January of `y`.
pub open spec fn days_before_year(y: int) -> int {
    365 * (y - 1970) + leap_years_through(y - 1) - leap_years_through(1969)
}

/// The number of days of the year `y` before the first of month `m`.
pub open spec fn days_before_month(y: int, m: int) -> int {
    let leap_day: int = if m > 2 && is_leap_year(y) {
        1
    } else {
        0
    };
    let before: int = if m <= 1 {
        0
    } else if m == 2 {
        31
    } else if m == 3 {
        59
    } else if m == 4 {
        90
    } else if m == 5 {
        120
    } else if m == 6 {
        151
    } else if m == 7 {
        181
    } else if m == 8 {
        212
    } else if m == 9 {
        243
    } else if m == 10 {
        273
    } else if m == 11 {
        304
    } else {
        334
    };
    leap_day + before
}

/// Whether year `y`, month `m` and day `d` name a day of the calendar, from
/// 1970 on.
pub open spec fn valid_date(y: int, m: int, d: int) -> bool {
    y >= 1970 && 1 <= m <= 12 && 1 <= d <= days_in_month(y, m)
}

/// The number of days from 1970-01-01 to the date `y`-`m`-`d`.
pub open spec fn day_number(y: int, m: int, d: int) -> int {
    days_before_year(y) + days_before_month(y, m) + d - 1
}

/// The date (year, month, day) that lies `n` days after 1970-01-01.
pub open spec fn date_of_day(n: int) -> (int, int, int) {
    choose|t: (int, int, int)| valid_date(t.0, t.1, t.2) && day_number(t.0, t.1, t.2) == n
}

proof fn lemma_div_step(y: int, d: int)
    requires
        y >= 1,
        d > 0,
    ensures
        y / d - (y - 1) / d == (if y % d == 0 {
            1int
        } else {
            0int
        }),
{
    lemma_fundamental_div_mod(y, d);
    let q = y / d;
    let r = y % d;
    if r == 0 {
        assert(y - 1 == (q - 1) * d + (d - 1)) by (nonlinear_arith)
            requires
                y == d * q + r,
                r == 0,
        ;
        lemma_fundamental_div_mod_converse(y - 1, d, q - 1, d - 1);
    } else {
        assert(y - 1 == q * d + (r - 1)) by (nonlinear_arith)
            requires
                y == d * q + r,
        ;
        lemma_fundamental_div_mod_converse(y - 1, d, q, r - 1);
    }
}

/// A year's days run from the first of January of it to that of the next.
proof fn lemma_year_step(y: int)
    requires
        y >= 1970,
    ensures
        days_before_year(y + 1) == days_before_year(y) + days_in_year(y),
{
    lemma_div_step(y, 4);
    lemma_div_step(y, 100);
    lemma_div_step(y, 400);
}

/// A year begins no earlier than the end of any year before it.
proof fn lemma_years_ordered(y1: int, y2: int)
    requires
        1970 <= y1 < y2,
    ensures
        days_before_year(y1 + 1) <= days_before_year(y2),
    decreases y2 - y1,
{
    if y2 > y1 + 1 {
        lemma_years_ordered(y1, y2 - 1);
        lemma_year_step(y2 - 1);
    }
}

/// Every 400 years from 1970 on take 146097 days.
proof fn lemma_cycles(c: int)
    requires
        c >= 0,
    ensures
        days_before_year(1970 + 400 * c) == 146097 * c,
{
    lemma_fundamental_div_mod_converse(1969 + 400 * c, 4, 492 + 100 * c, 1);
    lemma_fundamental_div_mod_converse(1969 + 400 * c, 100, 19 + 4 * c, 69);
    lemma_fundamental_div_mod_converse(1969 + 400 * c, 400, 4 + c, 369);
}

/// The months of a year follow one another and fill it.
proof fn lemma_month_step(y: int, m: int)
    requires
        1 <= m <= 12,
    ensures
        m < 12 ==> days_before_month(y, m + 1) == days_before_month(y, m) + days_in_month(y, m),
        m == 12 ==> days_before_month(y, m) + days_in_month(y, m) == days_in_year(y),
{
}

/// A date's day number lies within its year.
proof fn lemma_date_in_year(y: int, m: int, d: int)
    requires
        valid_date(y, m, d),
    ensures
        days_before_year(y) <= day_number(y, m, d) < days_before_year(y) + days_in_year(y),
{
}

/// Every day from 1970-01-01 on has a date.
proof fn lemma_date_exists(n: int)
    requires
        n >= 0,
    ensures
        exists|t: (int, int, int)| valid_date(t.0, t.1, t.2) && day_number(t.0, t.1, t.2) == n,
    decreases n,
{
    if n == 0 {
        let t = (1970int, 1int, 1int);
        assert(valid_date(t.0, t.1, t.2) && day_number(t.0, t.1, t.2) == 0);
    } else {
        lemma_date_exists(n - 1);
        let p = choose|t: (int, int, int)|
            valid_date(t.0, t.1, t.2) && day_number(t.0, t.1, t.2) == n - 1;
        let (y, m, d) = p;
        if d < days_in_month(y, m) {
            let t = (y, m, d + 1);
            assert(valid_date(t.0, t.1, t.2) && day_number(t.0, t.1, t.2) == n);
        } else if m < 12 {
            lemma_month_step(y, m);
            let t = (y, m + 1, 1int);
            assert(valid_date(t.0, t.1, t.2) && day_number(t.0, t.1, t.2) == n);
        } else {
            lemma_month_step(y, m);
            lemma_year_step(y);
            let t = (y + 1, 1int, 1int);
            assert(valid_date(t.0, t.1, t.2) && day_number(t.0, t.1, t.2) == n);
        }
    }
}

/// Two dates with the same day number are the same date.
pub proof fn law_dates_unique(y1: int, m1: int, d1: int, y2: int, m2: int, d2: int)
    requires
        valid_date(y1, m1, d1),
        valid_date(y2, m2, d2),
        day_number(y1, m1, d1) == day_number(y2, m2, d2),
    ensures
        y1 == y2 && m1 == m2 && d1 == d2,
{
    lemma_date_in_year(y1, m1, d1);
    lemma_date_in_year(y2, m2, d2);
    if y1 < y2 {
        lemma_years_ordered(y1, y2);
        lemma_year_step(y1);
    } else if y2 < y1 {
        lemma_years_ordered(y2, y1);
        lemma_year_step(y2);
    }
    assert(y1 == y2);
}

/// Day `n` (from 0) after 1970-01-01 has exactly one date, which
/// `date_of_day` gives.
pub proof fn law_date_of_day(n: int)
    requires
        n >= 0,
    ensures
        ({
            let t = date_of_day(n);
            valid_date(t.0, t.1, t.2) && day_number(t.0, t.1, t.2) == n
        }),
        forall|y: int, m: int, d: int|
            valid_date(y, m, d) && day_number(y, m, d) == n ==> date_of_day(n) == (y, m, d),
{
    lemma_date_exists(n);
    let t = date_of_day(n);
    assert forall|y: int, m: int, d: int|
        valid_date(y, m, d) && day_number(y, m, d) == n implies date_of_day(n) == (y, m, d) by {
        law_dates_unique(t.0, t.1, t.2, y, m, d);
    }
}

fn year_len(y: u64) -> (r: u64)
    ensures
        r == days_in_year(y as int),
{
    if (y % 4 == 0 && y % 100 != 0) || y % 400 == 0 {
        366
    } else {
        365
    }
}

fn month_len(y: u64, m: u64) -> (r: u64)
    ensures
        r == days_in_month(y as int, m as int),
{
    if m == 2 {
        if (y % 4 == 0 && y % 100 != 0) || y % 400 == 0 {
            29
        } else {
            28
        }
    } else if m == 4 || m == 6 || m == 9 || m == 11 {
        30
    } else {
        31
    }
}

/// The year, month and day of day `days` after 1970-01-01.
pub fn civil_date(days: u64) -> (r: (u64, u64, u64))
    ensures
        valid_date(r.0 as int, r.1 as int, r.2 as int),
        day_number(r.0 as int, r.1 as int, r.2 as int) == days,
        (r.0 as int, r.1 as int, r.2 as int) == date_of_day(days as int),
{
    let cycles: u64 = days / 146097;
    let mut rem: u64 = days % 146097;
    assert(cycles <= 126265284479692);
    let mut y: u64 = 1970 + 400 * cycles;
    proof {
        lemma_cycles(cycles as int);
        lemma_fundamental_div_mod(days as int, 146097);
    }
    let ghost y0 = y as int;
    let ghost rem0 = rem as int;
    while rem >= year_len(y)
        invariant
            y >= 1970,
            y0 == 1970 + 400 * cycles,
            cycles <= 126265284479692,
            rem0 < 146097,
            y >= y0,
            365 * (y - y0) + rem <= rem0,
            days_before_year(y as int) + rem == days,
        decreases rem,
    {
        proof {
            lemma_year_step(y as int);
        }
        rem = rem - year_len(y);
        y = y + 1;
    }
    let mut m: u64 = 1;
    while rem >= month_len(y, m)
        invariant
            1 <= m <= 12,
            y >= 1970,
            days_before_month(y as int, m as int) + rem < days_in_year(y as int),
            days_before_year(y as int) + days_before_month(y as int, m as int) + rem == days,
        decreases 12 - m,
    {
        proof {
            lemma_month_step(y as int, m as int);
        }
        rem = rem - month_len(y, m);
        m = m + 1;
    }
    let d = rem + 1;
    proof {
        law_date_of_day(days as int);
    }
    (y, m, d)
}

} // verus!
