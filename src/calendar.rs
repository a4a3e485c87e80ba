use vstd::prelude::*;

verus! {

/// Integer division that rounds toward zero, as Rust's `/` does on signed
/// integers (for a positive divisor).
pub open spec fn trunc_div(a: int, b: int) -> int {
    if a >= 0 {
        a / b
    } else {
        -((-a) / b)
    }
}

/// The Julian day number of a proleptic Gregorian date, by the closed-form
/// formula with every division rounding toward zero.
pub open spec fn julian_day_number(day: int, month: int, year: int) -> int {
    let a = trunc_div(month - 14, 12);
    trunc_div(1461 * (year + 4800 + a), 4) + trunc_div(367 * (month - 2 - 12 * a), 12)
        - trunc_div(3 * trunc_div(year + 4900 + a, 100), 4) + day
}

/// The 1-based ordinal of a date within its year: its Julian day number
/// less that of the first of January of the same year, plus one.
pub open spec fn day_of_year(day: int, month: int, year: int) -> int {
    julian_day_number(day, month, year) - julian_day_number(1, 1, year) + 1
}

/// Gregorian leap year: divisible by 4, and not by 100 unless by 400.
pub open spec fn is_leap_year(year: int) -> bool {
    year % 4 == 0 && (year % 100 != 0 || year % 400 == 0)
}

/// Number of days in a year: 366 in a leap year, 365 otherwise.
pub open spec fn days_in_year(year: int) -> int {
    if is_leap_year(year) {
        366
    } else {
        365
    }
}

/// Number of days in a month (1 to 12) of the given year.
pub open spec fn days_in_month(month: int, year: int) -> int {
    if month == 2 {
        if is_leap_year(year) {
            29
        } else {
            28
        }
    } else if month == 4 || month == 6 || month == 9 || month == 11 {
        30
    } else {
        31
    }
}

/// Number of days in the months of the year that come before `month`.
pub open spec fn days_before_month(month: int, year: int) -> int
    decreases month,
{
    if month <= 1 {
        0
    } else {
        days_before_month(month - 1, year) + days_in_month(month - 1, year)
    }
}

/// A calendar date with a month from 1 to 12 and a day within that month.
pub open spec fn is_valid_date(day: int, month: int, year: int) -> bool {
    1 <= month <= 12 && 1 <= day <= days_in_month(month, year)
}

/// The four-year term of the Julian day formula grows by the length of the
/// year that ends, in the Julian reckoning.
proof fn lemma_quadrennial_step(year: int)
    requires
        year >= -4799,
    ensures
        (1461 * (year + 4800)) / 4 - (1461 * (year + 4799)) / 4 == if year % 4 == 0 {
            366int
        } else {
            365int
        },
{
    let x = year + 4799;
    assert((1461 * x) / 4 == 365 * x + x / 4);
    assert((1461 * (x + 1)) / 4 == 365 * (x + 1) + (x + 1) / 4);
    assert((x + 1) % 4 == year % 4);
}

/// The century term of the Julian day formula removes the leap day of a
/// century year not divisible by 400.
proof fn lemma_century_step(year: int)
    requires
        year >= -4799,
    ensures
        (3 * ((year + 4900) / 100)) / 4 - (3 * ((year + 4899) / 100)) / 4 == if year % 100 == 0
            && year % 400 != 0 {
            1int
        } else {
            0int
        },
{
    let q = (year + 4900) / 100;
    if year % 100 == 0 {
        assert((year + 4899) / 100 == q - 1);
        assert(q == year / 100 + 49);
        assert(year % 400 == 0 <==> (year / 100) % 4 == 0);
    } else {
        assert((year + 4899) / 100 == q);
    }
}

/// For a real calendar date the day of the year counts the days of the
/// months before it, by the Gregorian leap-year rule, plus the day.
pub proof fn lemma_day_of_year_ordinal(day: int, month: int, year: int)
    requires
        1 <= month <= 12,
        year >= -4799,
    ensures
        day_of_year(day, month, year) == days_before_month(month, year) + day,
{
    reveal_with_fuel(days_before_month, 12);
    if month <= 2 {
        assert(trunc_div(month - 14, 12) == -1);
    } else {
        assert(trunc_div(month - 14, 12) == 0);
        lemma_quadrennial_step(year);
        lemma_century_step(year);
    }
}

/// The first of January is day 1 of its year, whatever the year.
pub proof fn lemma_first_of_january(year: int)
    ensures
        day_of_year(1, 1, year) == 1,
{
}

/// The thirty-first of December is day 365 of its year, or day 366 in a
/// leap year.
pub proof fn lemma_last_of_december(year: int)
    requires
        year >= -4799,
    ensures
        day_of_year(31, 12, year) == days_in_year(year),
{
    lemma_day_of_year_ordinal(31, 12, year);
    reveal_with_fuel(days_before_month, 12);
}

/// The months before `m2` hold at least the days of the months up to and
/// including an earlier month `m1`.
proof fn lemma_days_before_month_grows(m1: int, m2: int, year: int)
    requires
        1 <= m1 < m2 <= 12,
    ensures
        days_before_month(m1, year) + days_in_month(m1, year) <= days_before_month(m2, year),
    decreases m2 - m1,
{
    if m1 + 1 < m2 {
        lemma_days_before_month_grows(m1, m2 - 1, year);
    }
}

/// Within one year, a later date never has a smaller day of the year.
pub proof fn lemma_day_of_year_monotonic(d1: int, m1: int, d2: int, m2: int, year: int)
    requires
        year >= -4799,
        is_valid_date(d1, m1, year),
        is_valid_date(d2, m2, year),
        m1 < m2 || (m1 == m2 && d1 <= d2),
    ensures
        day_of_year(d1, m1, year) <= day_of_year(d2, m2, year),
{
    lemma_day_of_year_ordinal(d1, m1, year);
    lemma_day_of_year_ordinal(d2, m2, year);
    if m1 < m2 {
        lemma_days_before_month_grows(m1, m2, year);
    }
}

/// A real calendar date has a day of the year from 1 to the length of its
/// year.
pub proof fn lemma_day_of_year_range(day: int, month: int, year: int)
    requires
        year >= -4799,
        is_valid_date(day, month, year),
    ensures
        1 <= day_of_year(day, month, year) <= days_in_year(year),
{
    lemma_day_of_year_monotonic(1, 1, day, month, year);
    lemma_day_of_year_monotonic(day, month, 31, 12, year);
    lemma_first_of_january(year);
    lemma_last_of_december(year);
}

/// Days from the first of January to the given date, plus one.
///
/// Any month and day are accepted: out-of-range values give the
/// extrapolated value of the Julian day formula.
pub fn hdate_get_day_of_year(day: i32, month: i32, year: i32) -> (r: i32)
    requires
        i32::MIN <= day_of_year(day as int, month as int, year as int) <= i32::MAX,
    ensures
        r == day_of_year(day as int, month as int, year as int),
        1 <= month <= 12 && year >= -4799 ==> r == days_before_month(month as int, year as int)
            + day,
{
    proof {
        if 1 <= month <= 12 && year >= -4799 {
            lemma_day_of_year_ordinal(day as int, month as int, year as int);
        }
    }
    // Julian day number of the date, worked in 64 bits so that no term overflows.
    let m = month as i64;
    let y = year as i64;
    let a: i64 = (m - 14) / 12;
    assert(a == trunc_div(month - 14, 12));
    let t1: i64 = (1461 * (y + 4800 + a)) / 4;
    assert(t1 == trunc_div(1461 * (year + 4800 + a), 4));
    let t2: i64 = (367 * (m - 2 - 12 * a)) / 12;
    assert(t2 == trunc_div(367 * (month - 2 - 12 * a), 12));
    let c: i64 = (y + 4900 + a) / 100;
    assert(c == trunc_div(year + 4900 + a, 100));
    let t3: i64 = (3 * c) / 4;
    assert(t3 == trunc_div(3 * c, 4));
    // Julian day number of the first of January, less one.
    let f1: i64 = (1461 * (y + 4799)) / 4;
    let fc: i64 = (y + 4899) / 100;
    let f3: i64 = (3 * fc) / 4;
    assert(trunc_div(1 - 14, 12) == -1);
    assert(f1 == trunc_div(1461 * (year + 4800 + -1), 4));
    assert(fc == trunc_div(year + 4900 + -1, 100));
    assert(f3 == trunc_div(3 * fc, 4));
    let r: i64 = (t1 + t2 - t3 + day as i64) - (f1 + 367 * 11 / 12 - f3);
    r as i32
}

} // verus!
