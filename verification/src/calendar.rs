//! Days since 1 January 1970 as dates of the Gregorian calendar.

use vstd::prelude::*;

verus! {

pub open spec fn is_leap(year: int) -> bool {
    year % 4 == 0 && (year % 100 != 0 || year % 400 == 0)
}

/// The days of a month.
pub open spec fn month_length(year: int, month: int) -> int {
    if month == 2 {
        if is_leap(year) {
            29
        } else {
            28
        }
    } else if month == 4 || month == 6 || month == 9 || month == 11 {
        30
    } else {
        31
    }
}

/// The days of a year.
pub open spec fn year_length(year: int) -> int {
    if is_leap(year) {
        366
    } else {
        365
    }
}

/// The days of a year that come before a month.
pub open spec fn days_before_month(year: int, month: int) -> int
    decreases month,
{
    if month <= 1 {
        0
    } else {
        days_before_month(year, month - 1) + month_length(year, month - 1)
    }
}

/// The days from 1 January 1970 to 1 January of a year, negative for a year
/// before.
pub open spec fn year_start(year: int) -> int {
    365 * (year - 1970) + ((year - 1) / 4 - (year - 1) / 100 + (year - 1) / 400 - 477)
}

/// There is such a date.
pub open spec fn is_date(year: int, month: int, day: int) -> bool {
    1 <= month <= 12 && 1 <= day <= month_length(year, month)
}

/// The days from 1 January 1970 to a date.
pub open spec fn day_number(year: int, month: int, day: int) -> int {
    year_start(year) + days_before_month(year, month) + day - 1
}

/// The date is that of the given day.
pub open spec fn is_date_of(days: int, year: int, month: int, day: int) -> bool {
    is_date(year, month, day) && day_number(year, month, day) == days
}

/// The multiples of `n` that are passed from a year to the next.
proof fn lemma_next(year: int, n: int)
    requires
        n > 0,
    ensures
        year / n == (year - 1) / n + (if year % n == 0 {
            1int
        } else {
            0
        }),
{
    let (q, r) = (year / n, year % n);
    vstd::arithmetic::div_mod::lemma_fundamental_div_mod(year, n);
    if r == 0 {
        assert(year - 1 == n * (q - 1) + (n - 1)) by (nonlinear_arith)
            requires
                year == n * q,
        ;
        vstd::arithmetic::div_mod::lemma_fundamental_div_mod_converse(year - 1, n, q - 1, n - 1);
    } else {
        vstd::arithmetic::div_mod::lemma_fundamental_div_mod_converse(year - 1, n, q, r - 1);
    }
}

/// Each year starts where the year before it ends, and 1970 starts at day 0.
pub proof fn law_years_follow_each_other(year: int)
    ensures
        year_start(year + 1) == year_start(year) + year_length(year),
        year_start(1970) == 0,
{
    lemma_next(year, 4);
    lemma_next(year, 100);
    lemma_next(year, 400);
    assert(year % 100 == 0 ==> year % 4 == 0);
    assert(year % 400 == 0 ==> year % 100 == 0);
}

/// A year has the days of its months.
pub proof fn law_months_make_the_year(year: int)
    ensures
        days_before_month(year, 12) + 31 == year_length(year),
{
    reveal_with_fuel(days_before_month, 13);
}

proof fn lemma_years_grow(a: int, b: int)
    requires
        a < b,
    ensures
        year_start(a) + year_length(a) <= year_start(b),
    decreases b - a,
{
    law_years_follow_each_other(b - 1);
    if a < b - 1 {
        lemma_years_grow(a, b - 1);
    } else {
        assert(a == b - 1);
    }
}

proof fn lemma_months_grow(year: int, a: int, b: int)
    requires
        1 <= a < b <= 12,
    ensures
        days_before_month(year, a) + month_length(year, a) <= days_before_month(year, b),
    decreases b - a,
{
    if a < b - 1 {
        lemma_months_grow(year, a, b - 1);
    }
}

proof fn lemma_date_is_in_its_year(year: int, month: int, day: int)
    requires
        is_date(year, month, day),
    ensures
        year_start(year) <= day_number(year, month, day) < year_start(year) + year_length(year),
{
    law_months_make_the_year(year);
    if month < 12 {
        lemma_months_grow(year, month, 12);
    }
    if month > 1 {
        lemma_months_grow(year, 1, month);
    }
}

/// A later date has a later number, so that no day has two dates.
pub proof fn law_each_day_has_one_date(
    y1: int,
    m1: int,
    d1: int,
    y2: int,
    m2: int,
    d2: int,
)
    requires
        is_date(y1, m1, d1),
        is_date(y2, m2, d2),
    ensures
        day_number(y1, m1, d1) < day_number(y2, m2, d2) <==> y1 < y2 || (y1 == y2 && (m1 < m2 || (
        m1 == m2 && d1 < d2))),
        day_number(y1, m1, d1) == day_number(y2, m2, d2) <==> y1 == y2 && m1 == m2 && d1 == d2,
{
    lemma_date_is_in_its_year(y1, m1, d1);
    lemma_date_is_in_its_year(y2, m2, d2);
    if y1 < y2 {
        lemma_years_grow(y1, y2);
    } else if y2 < y1 {
        lemma_years_grow(y2, y1);
    } else if m1 < m2 {
        lemma_months_grow(y1, m1, m2);
    } else if m2 < m1 {
        lemma_months_grow(y1, m2, m1);
    }
}

proof fn lemma_shift(a: int, k: int, n: int)
    requires
        n > 0,
    ensures
        (a + k * n) / n == a / n + k,
        (a + k * n) % n == a % n,
{
    vstd::arithmetic::div_mod::lemma_fundamental_div_mod(a, n);
    assert(a + k * n == n * (a / n + k) + a % n) by (nonlinear_arith)
        requires
            a == n * (a / n) + a % n,
    ;
    vstd::arithmetic::div_mod::lemma_fundamental_div_mod_converse(
        a + k * n,
        n,
        a / n + k,
        a % n,
    );
}

/// Every 400 years the calendar repeats.
proof fn lemma_eras(year: int, era: int)
    ensures
        year_start(year + 400 * era) == year_start(year) + 146097 * era,
        is_leap(year + 400 * era) == is_leap(year),
{
    let p = year - 1;
    lemma_shift(p, 100 * era, 4);
    lemma_shift(p, 4 * era, 100);
    lemma_shift(p, era, 400);
    lemma_shift(year, 100 * era, 4);
    lemma_shift(year, 4 * era, 100);
    lemma_shift(year, era, 400);
}

/// The date in the year that starts on 1 March: the day of the year, the month
/// from March on and the day of that month.
proof fn lemma_date_from_march(year: int, of_year: int, from_march: int, day: int)
    requires
        0 <= of_year <= 365,
        of_year == 365 ==> is_leap(year + 1),
        from_march == (5 * of_year + 2) / 153,
        day == of_year - (153 * from_march + 2) / 5 + 1,
    ensures
        0 <= from_march <= 11,
        ({
            let month = if from_march < 10 {
                from_march + 3
            } else {
                from_march - 9
            };
            let of = if month <= 2 {
                year + 1
            } else {
                year
            };
            is_date_of(year_start(year + 1) - 306 + of_year, of, month, day)
        }),
{
    law_years_follow_each_other(year);
    reveal_with_fuel(days_before_month, 13);
    assert(0 <= from_march <= 11);
    let m = from_march;
    assert(m == 0 || m == 1 || m == 2 || m == 3 || m == 4 || m == 5 || m == 6 || m == 7 || m == 8
        || m == 9 || m == 10 || m == 11);
}

/// A day of an era, which starts on 1 March, by the centuries, cycles of four
/// years and years before it.
proof fn lemma_day_of_era(of_era: int, century: int, cycle: int, in_cycle: int, of_year: int)
    requires
        0 <= of_era < 146_097,
        0 <= century <= 3,
        century == of_era / 36_524 || (century == 3 && of_era / 36_524 >= 3),
        0 <= cycle,
        cycle == (of_era - century * 36_524) / 1_461,
        0 <= in_cycle <= 3,
        ({
            let of_cycle = of_era - century * 36_524 - cycle * 1_461;
            &&& in_cycle == of_cycle / 365 || (in_cycle == 3 && of_cycle / 365 >= 3)
            &&& of_year == of_cycle - in_cycle * 365
        }),
    ensures
        ({
            let y = 100 * century + 4 * cycle + in_cycle;
            &&& 0 <= y < 400
            &&& 0 <= of_year <= 365
            &&& year_start(y + 1) - 306 + of_year == of_era - 719_468
            &&& of_year == 365 ==> is_leap(y + 1)
        }),
{
    let y = 100 * century + 4 * cycle + in_cycle;
    assert(cycle <= 24);
    assert(y / 4 == 25 * century + cycle);
    assert(y / 100 == century);
    assert(y / 400 == 0);
    if of_year == 365 {
        assert(in_cycle == 3);
        if cycle == 24 {
            assert(century == 3);
            assert(y + 1 == 400);
        } else {
            assert(y + 1 == 100 * century + 4 * (cycle + 1));
            assert((y + 1) % 4 == 0);
            assert((y + 1) % 100 == 4 * (cycle + 1));
        }
    }
}

/// The year that starts on 1 March, by the year of that March, and the days of
/// it before the given day.
fn march_year(days: i64) -> (r: (i64, i64))
    requires
        i64::MIN + 146_096 <= days + 719_468 <= i64::MAX,
    ensures
        0 <= r.1 <= 365,
        r.1 == 365 ==> is_leap(r.0 + 1),
        year_start(r.0 + 1) - 306 + r.1 == days,
        i64::MIN < r.0 < i64::MAX,
{
    let z: i64 = days + 719_468;
    let era: i64 = if z >= 0 {
        z / 146_097
    } else {
        -((-(z + 1)) / 146_097) - 1
    };
    let of_era: i64 = z - era * 146_097;
    assert(0 <= of_era < 146_097);
    let century: i64 = if of_era / 36_524 > 3 {
        3
    } else {
        of_era / 36_524
    };
    let of_century: i64 = of_era - century * 36_524;
    let cycle: i64 = of_century / 1_461;
    let of_cycle: i64 = of_century - cycle * 1_461;
    let in_cycle: i64 = if of_cycle / 365 > 3 {
        3
    } else {
        of_cycle / 365
    };
    let of_year: i64 = of_cycle - in_cycle * 365;
    let year_of_era: i64 = century * 100 + cycle * 4 + in_cycle;
    proof {
        lemma_day_of_era(
            of_era as int,
            century as int,
            cycle as int,
            in_cycle as int,
            of_year as int,
        );
        lemma_eras(year_of_era + 1, era as int);
    }
    (year_of_era + era * 400, of_year)
}

/// The date of the given day. The year is cut to 32 bits.
pub fn civil_from_days(days: i64) -> (r: (i32, u32, u32))
    requires
        i64::MIN + 146_096 <= days + 719_468 <= i64::MAX,
    ensures
        exists|year: i64|
            #[trigger] is_date_of(days as int, year as int, r.1 as int, r.2 as int) && r.0
                == year as i32,
{
    let (year, of_year) = march_year(days);
    let from_march: i64 = (5 * of_year + 2) / 153;
    let day: i64 = of_year - (153 * from_march + 2) / 5 + 1;
    proof {
        lemma_date_from_march(year as int, of_year as int, from_march as int, day as int);
    }
    let month: i64 = if from_march < 10 {
        from_march + 3
    } else {
        from_march - 9
    };
    let year: i64 = if month <= 2 {
        year + 1
    } else {
        year
    };
    let r = (year as i32, month as u32, day as u32);
    assert(is_date_of(days as int, year as int, r.1 as int, r.2 as int));
    r
}

/// The months of 31 days, those of 30, and February, which has 29 in the years
/// that are multiples of 4, but for centuries that are no multiples of 400.
pub proof fn law_months_have_their_days(year: int)
    ensures
        month_length(year, 1) == 31 && month_length(year, 3) == 31 && month_length(year, 5) == 31
            && month_length(year, 7) == 31 && month_length(year, 8) == 31 && month_length(year, 10)
            == 31 && month_length(year, 12) == 31,
        month_length(year, 4) == 30 && month_length(year, 6) == 30 && month_length(year, 9) == 30
            && month_length(year, 11) == 30,
        year % 400 == 0 ==> month_length(year, 2) == 29,
        year % 400 != 0 && year % 100 == 0 ==> month_length(year, 2) == 28,
        year % 100 != 0 && year % 4 == 0 ==> month_length(year, 2) == 29,
        year % 4 != 0 ==> month_length(year, 2) == 28,
{
}

/// The date of the next day is the next day of the month, or the first of the
/// next month if there is none, and of the next year after December.
pub proof fn law_days_follow_each_other(
    days: int,
    year: int,
    month: int,
    day: int,
    next_year: int,
    next_month: int,
    next_day: int,
)
    requires
        is_date_of(days, year, month, day),
        is_date_of(days + 1, next_year, next_month, next_day),
    ensures
        day < month_length(year, month) ==> next_year == year && next_month == month && next_day
            == day + 1,
        day == month_length(year, month) && month < 12 ==> next_year == year && next_month == month
            + 1 && next_day == 1,
        day == month_length(year, month) && month == 12 ==> next_year == year + 1 && next_month == 1
            && next_day == 1,
        days == 0 ==> year == 1970 && month == 1 && day == 1,
{
    if day < month_length(year, month) {
        law_each_day_has_one_date(year, month, day + 1, next_year, next_month, next_day);
    } else if month < 12 {
        law_each_day_has_one_date(year, month + 1, 1, next_year, next_month, next_day);
    } else {
        law_months_make_the_year(year);
        law_years_follow_each_other(year);
        law_each_day_has_one_date(year + 1, 1, 1, next_year, next_month, next_day);
    }
    law_years_follow_each_other(1970);
    law_each_day_has_one_date(year, month, day, 1970, 1, 1);
}

} // verus!
