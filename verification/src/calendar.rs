//! Calendar arithmetic for ACCEPT ... FROM DATE / TIME / DAY-OF-WEEK.
use vstd::prelude::*;

verus! {

/// The date of the day `days` days after 1970-01-01, computed as the
/// civil-from-days algorithm does in machine integers.
spec fn civil_from_days(days: int) -> (int, int, int) {
    let z = days + 719468;
    let era = z / 146097;
    let doe = z - era * 146097;
    let yoe = (doe - doe / 1460 + doe / 36524 - doe / 146096) / 365;
    let y = yoe + era * 400;
    let doy = doe - (365 * yoe + yoe / 4 - yoe / 100);
    let mp = (5 * doy + 2) / 153;
    let d = doy - (153 * mp + 2) / 5 + 1;
    let m = if mp < 10 {
        mp + 3
    } else {
        mp - 9
    };
    (if m <= 2 {
        y + 1
    } else {
        y
    }, m, d)
}

proof fn lemma_year_of_era(doe: u64)
    requires
        doe < 146097,
    ensures
        (doe - doe / 1460 + doe / 36524 - doe / 146096) / 365 <= 399,
        365 * ((doe - doe / 1460 + doe / 36524 - doe / 146096) / 365) + ((doe - doe / 1460 + doe
            / 36524 - doe / 146096) / 365) / 4 - ((doe - doe / 1460 + doe / 36524 - doe / 146096)
            / 365) / 100 <= doe,
        doe - (365 * ((doe - doe / 1460 + doe / 36524 - doe / 146096) / 365) + ((doe - doe / 1460
            + doe / 36524 - doe / 146096) / 365) / 4 - ((doe - doe / 1460 + doe / 36524 - doe
            / 146096) / 365) / 100) <= 365,
{
    assert(doe < 146097 ==> (doe - doe / 1460 + doe / 36524 - doe / 146096) / 365 <= 399)
        by (bit_vector);
    assert(doe < 146097 ==> 365 * ((doe - doe / 1460 + doe / 36524 - doe / 146096) / 365) + ((doe - doe / 1460 + doe
            / 36524 - doe / 146096) / 365) / 4 - ((doe - doe / 1460 + doe / 36524 - doe / 146096)
            / 365) / 100 <= doe) by (bit_vector);
    assert(doe < 146097 ==> doe - (365 * ((doe - doe / 1460 + doe / 36524 - doe / 146096) / 365) + ((doe - doe / 1460
            + doe / 36524 - doe / 146096) / 365) / 4 - ((doe - doe / 1460 + doe / 36524 - doe
            / 146096) / 365) / 100) <= 365) by (bit_vector);
}

proof fn lemma_month_day(doy: u64)
    requires
        doy <= 365,
    ensures
        (5 * doy + 2) / 153 <= 11,
        (153 * ((5 * doy + 2) / 153) + 2) / 5 <= doy,
        doy - (153 * ((5 * doy + 2) / 153) + 2) / 5 + 1 <= 31,
{
    assert(doy <= 365 ==> (5 * doy + 2) / 153 <= 11) by (bit_vector);
    assert(doy <= 365 ==> (153 * ((5 * doy + 2) / 153) + 2) / 5 <= doy) by (bit_vector);
    assert(doy <= 365 ==> doy - (153 * ((5 * doy + 2) / 153) + 2) / 5 + 1 <= 31) by (bit_vector);
}

/// The day of the era-year `y` (counted from March of the era's first year)
/// on which that year begins, counted from the start of the era: every
/// fourth year is a leap year, except every hundredth, except every
/// four-hundredth.
spec fn year_start(y: int) -> int {
    365 * y + y / 4 - y / 100 + y / 400
}

/// The era-year of a day of the era, by the algorithm.
spec fn era_year_of(doe: int) -> int {
    (doe - doe / 1460 + doe / 36524 - doe / 146096) / 365
}

/// The day (counted from March 1) on which the month `mp` months after
/// March begins.
spec fn month_start(mp: int) -> int {
    (153 * mp + 2) / 5
}

/// The month (counted from March) of a day of the year, by the algorithm.
spec fn month_of(doy: int) -> int {
    (5 * doy + 2) / 153
}

/// Whether the era-year `y` ends with a February 29.
spec fn leap_after(y: int) -> bool {
    (y + 1) % 4 == 0 && ((y + 1) % 100 != 0 || (y + 1) % 400 == 0)
}

proof fn lemma_year_interval(doe: int)
    requires
        0 <= doe < 146097,
    ensures
        0 <= era_year_of(doe) <= 399,
        year_start(era_year_of(doe)) <= doe < year_start(era_year_of(doe) + 1),
{
    let d = doe as u64;
    assert(d < 146097 ==> (d - d / 1460 + d / 36524 - d / 146096) / 365 <= 399) by (bit_vector);
    assert(d < 146097 ==> {
        let y = (d - d / 1460 + d / 36524 - d / 146096) / 365;
        &&& 365 * y + y / 4 - y / 100 <= d
        &&& d < 365 * (y + 1) + (y + 1) / 4 - (y + 1) / 100 + (y + 1) / 400
    }) by (bit_vector);
    let y = era_year_of(doe);
    assert(y / 400 == 0);
}

proof fn lemma_year_length(y: int)
    requires
        0 <= y <= 399,
    ensures
        year_start(y + 1) == year_start(y) + 365 + (if leap_after(y) {
            1int
        } else {
            0int
        }),
{
    let u = y as u64;
    assert(u <= 399 ==> 365 * (u + 1) + (u + 1) / 4 - (u + 1) / 100 + (u + 1) / 400 == 365 * u + u / 4
        - u / 100 + u / 400 + 365 + (if (u + 1) % 4 == 0 && ((u + 1) % 100 != 0 || (u + 1) % 400
        == 0) {
        1u64
    } else {
        0u64
    })) by (bit_vector);
}

proof fn lemma_year_start_mono(a: int, b: int)
    requires
        0 <= a <= b <= 400,
    ensures
        year_start(a) <= year_start(b),
        a < b ==> year_start(a + 1) <= year_start(b),
    decreases b - a,
{
    if a < b {
        lemma_year_start_mono(a, b - 1);
        lemma_year_length(b - 1);
    }
}

proof fn lemma_year_unique(y1: int, y2: int, x: int)
    requires
        0 <= y1 <= 399,
        0 <= y2 <= 399,
        year_start(y1) <= x < year_start(y1 + 1),
        year_start(y2) <= x < year_start(y2 + 1),
    ensures
        y1 == y2,
{
    if y1 < y2 {
        lemma_year_start_mono(y1, y2);
    } else if y2 < y1 {
        lemma_year_start_mono(y2, y1);
    }
}

proof fn lemma_month_interval(doy: int)
    requires
        0 <= doy < 366,
    ensures
        0 <= month_of(doy) <= 11,
        month_start(month_of(doy)) <= doy < month_start(month_of(doy) + 1),
{
    let d = doy as u64;
    assert(d < 366 ==> (5 * d + 2) / 153 <= 11) by (bit_vector);
    assert(d < 366 ==> {
        let mp = (5 * d + 2) / 153;
        &&& (153 * mp + 2) / 5 <= d
        &&& d < (153 * (mp + 1) + 2) / 5
    }) by (bit_vector);
}

/// The starts of the months from March: 0, 31, 61, 92, 122, 153, 184, 214,
/// 245, 275, 306, 337, 367.
proof fn lemma_month_starts()
    ensures
        month_start(0) == 0,
        month_start(1) == 31,
        month_start(2) == 61,
        month_start(3) == 92,
        month_start(4) == 122,
        month_start(5) == 153,
        month_start(6) == 184,
        month_start(7) == 214,
        month_start(8) == 245,
        month_start(9) == 275,
        month_start(10) == 306,
        month_start(11) == 337,
        month_start(12) == 367,
{
}

proof fn lemma_month_unique(m1: int, m2: int, x: int)
    requires
        0 <= m1 <= 11,
        0 <= m2 <= 11,
        month_start(m1) <= x < month_start(m1 + 1),
        month_start(m2) <= x < month_start(m2 + 1),
    ensures
        m1 == m2,
{
    lemma_month_starts();
}

/// Whether `y` is a leap year of the Gregorian calendar.
pub open spec fn is_leap(y: int) -> bool {
    y % 4 == 0 && (y % 100 != 0 || y % 400 == 0)
}

/// The number of days of month `m` of year `y`.
pub open spec fn month_len(y: int, m: int) -> int {
    if m == 2 {
        if is_leap(y) {
            29
        } else {
            28
        }
    } else if m == 4 || m == 6 || m == 9 || m == 11 {
        30
    } else {
        31
    }
}

/// The day after the date (year, month, day).
pub open spec fn next_day(date: (int, int, int)) -> (int, int, int) {
    let (y, m, d) = date;
    if d < month_len(y, m) {
        (y, m, d + 1)
    } else if m < 12 {
        (y, m + 1, 1)
    } else {
        (y + 1, 1, 1)
    }
}

/// The date (year, month, day) that is `n` days after 1970-01-01 in the
/// proleptic Gregorian calendar.
pub open spec fn date_after(n: nat) -> (int, int, int)
    decreases n,
{
    if n == 0 {
        (1970, 1, 1)
    } else {
        next_day(date_after((n - 1) as nat))
    }
}

/// Whether (year, month, day) is a date of the calendar.
pub open spec fn is_valid_date(date: (int, int, int)) -> bool {
    let (y, m, d) = date;
    1 <= m <= 12 && 1 <= d <= month_len(y, m)
}

/// Every day after 1970-01-01 has a valid date, and the dates of
/// consecutive days are consecutive.
pub proof fn lemma_date_after_valid(n: nat)
    ensures
        is_valid_date(date_after(n)),
        date_after(n + 1) == next_day(date_after(n)),
    decreases n,
{
    if n > 0 {
        lemma_date_after_valid((n - 1) as nat);
    }
}

/// The date of day `doe` of era `era`, by the algorithm.
spec fn civil_of(era: int, doe: int) -> (int, int, int) {
    let yoe = era_year_of(doe);
    let y = yoe + era * 400;
    let doy = doe - (365 * yoe + yoe / 4 - yoe / 100);
    let mp = month_of(doy);
    let d = doy - month_start(mp) + 1;
    let m = if mp < 10 {
        mp + 3
    } else {
        mp - 9
    };
    (if m <= 2 {
        y + 1
    } else {
        y
    }, m, d)
}

/// The era-year's February has 29 days exactly when its civil year is a leap year.
proof fn lemma_leap_in_era(era: int, y: int)
    requires
        0 <= y <= 399,
    ensures
        is_leap(y + era * 400 + 1) == leap_after(y),
{
    let c = y + era * 400 + 1;
    vstd::arithmetic::div_mod::lemma_fundamental_div_mod_converse(c, 4, era * 100 + (y + 1) / 4, (y + 1) % 4);
    vstd::arithmetic::div_mod::lemma_fundamental_div_mod_converse(c, 100, era * 4 + (y + 1) / 100, (y + 1) % 100);
    vstd::arithmetic::div_mod::lemma_fundamental_div_mod_converse(c, 400, era + (y + 1) / 400, (y + 1) % 400);
}

/// From a day of an era that is not its last, the next day of the era is
/// the next date.
proof fn lemma_next_in_era(era: int, doe: int)
    requires
        0 <= doe < 146096,
    ensures
        civil_of(era, doe + 1) == next_day(civil_of(era, doe)),
{
    let yoe = era_year_of(doe);
    lemma_year_interval(doe);
    lemma_year_interval(doe + 1);
    lemma_year_length(yoe);
    lemma_leap_in_era(era, yoe);
    lemma_month_starts();
    assert(yoe / 400 == 0);
    let doy = doe - year_start(yoe);
    assert(doy == doe - (365 * yoe + yoe / 4 - yoe / 100));
    assert(0 <= doy < 366);
    lemma_month_interval(doy);
    let mp = month_of(doy);
    let yoe2 = era_year_of(doe + 1);
    assert(yoe2 / 400 == 0);
    if doe + 1 < year_start(yoe + 1) {
        lemma_year_unique(yoe, yoe2, doe + 1);
        assert(doy + 1 < 366);
        lemma_month_interval(doy + 1);
        let mp2 = month_of(doy + 1);
        if doy + 1 < month_start(mp + 1) {
            lemma_month_unique(mp, mp2, doy + 1);
        } else {
            lemma_month_unique(mp + 1, mp2, doy + 1);
        }
    } else {
        assert(doe + 1 == year_start(yoe + 1));
        assert(yoe + 1 <= 399) by {
            if yoe == 399 {
                assert(year_start(400) == 146097);
            }
        }
        lemma_year_length(yoe + 1);
        lemma_year_unique(yoe + 1, yoe2, doe + 1);
        lemma_month_interval(0);
    }
}

/// The date of day `n` after 1970-01-01, by the algorithm.
spec fn algorithm_date(n: int) -> (int, int, int) {
    let z = n + 719468;
    civil_of(z / 146097, z % 146097)
}

proof fn lemma_algorithm_next(n: int)
    requires
        n >= 0,
    ensures
        algorithm_date(n + 1) == next_day(algorithm_date(n)),
{
    let z = n + 719468;
    let era = z / 146097;
    let doe = z % 146097;
    vstd::arithmetic::div_mod::lemma_fundamental_div_mod(z, 146097);
    if doe < 146096 {
        vstd::arithmetic::div_mod::lemma_fundamental_div_mod_converse(z + 1, 146097, era, doe + 1);
        lemma_next_in_era(era, doe);
    } else {
        vstd::arithmetic::div_mod::lemma_fundamental_div_mod_converse(z + 1, 146097, era + 1, 0);
        lemma_year_interval(146096);
        lemma_year_interval(0);
        lemma_leap_in_era(era, 399);
        lemma_month_starts();
        assert(era_year_of(146096) == 399);
        assert(era_year_of(0) == 0);
        lemma_month_interval(365);
        lemma_month_interval(0);
        assert(month_of(365) == 11);
        assert(month_of(0) == 0);
    }
}

/// The algorithm gives the date `n` days after 1970-01-01.
proof fn lemma_algorithm_is_date_after(n: nat)
    ensures
        algorithm_date(n as int) == date_after(n),
    decreases n,
{
    if n == 0 {
        assert(719468int / 146097 == 4);
        assert(719468int % 146097 == 135080);
        assert(era_year_of(135080) == 369);
        assert(month_of(306) == 10);
        assert(month_start(10) == 306);
        assert(algorithm_date(0) == (1970int, 1int, 1int));
    } else {
        lemma_algorithm_is_date_after((n - 1) as nat);
        lemma_algorithm_next(n - 1);
    }
}

/// Converts a count of days since 1970-01-01 to (year, month, day).
pub fn days_to_ymd(days_since_epoch: u64) -> (r: (u64, u64, u64))
    requires
        days_since_epoch <= u64::MAX - 719468,
    ensures
        (r.0 as int, r.1 as int, r.2 as int) == date_after(days_since_epoch as nat),
        1 <= r.1 <= 12,
        1 <= r.2 <= 31,
{
    proof {
        let z = days_since_epoch + 719468;
        vstd::arithmetic::div_mod::lemma_fundamental_div_mod(z as int, 146097);
        assert(civil_from_days(days_since_epoch as int) == algorithm_date(days_since_epoch as int));
        lemma_algorithm_is_date_after(days_since_epoch as nat);
    }
    let z = days_since_epoch + 719468;
    let era = z / 146097;
    assert(era * 146097 <= z) by (nonlinear_arith)
        requires
            era == z / 146097,
    ;
    let doe = z - era * 146097;
    assert(doe < 146097) by (nonlinear_arith)
        requires
            era == z / 146097,
            doe == z - era * 146097,
    ;
    proof {
        lemma_year_of_era(doe);
    }
    let yoe = (doe - doe / 1460 + doe / 36524 - doe / 146096) / 365;
    assert(era <= u64::MAX / 146097) by (nonlinear_arith)
        requires
            era == z / 146097,
    ;
    let y = yoe + era * 400;
    let doy = doe - (365 * yoe + yoe / 4 - yoe / 100);
    proof {
        lemma_month_day(doy);
    }
    let mp = (5 * doy + 2) / 153;
    let d = doy - (153 * mp + 2) / 5 + 1;
    let m = if mp < 10 {
        mp + 3
    } else {
        mp - 9
    };
    let y = if m <= 2 {
        y + 1
    } else {
        y
    };
    (y, m, d)
}

} // verus!
