//! The dates that timestamps are shown with are dates of the proleptic
//! Gregorian calendar.

use vstd::prelude::*;
use crate::display::{civil_month_day, leap_year};

verus! {

proof fn lemma_year_of_era(doe: int)
    requires
        0 <= doe <= 146096,
    ensures
        ({
            let yoe = (doe - doe / 1460 + doe / 36524 - doe / 146096) / 365;
            let doy = doe - (365 * yoe + yoe / 4 - yoe / 100);
            &&& 0 <= yoe <= 399
            &&& 0 <= doy <= 365
            &&& doy == 365 ==> leap_year(yoe + 1)
        }),
{
    let yoe = (doe - doe / 1460 + doe / 36524 - doe / 146096) / 365;
    let doy = doe - (365 * yoe + yoe / 4 - yoe / 100);
    assert(0 <= yoe <= 399) by (nonlinear_arith)
        requires
            0 <= doe <= 146096,
            yoe == (doe - doe / 1460 + doe / 36524 - doe / 146096) / 365,
    ;
    assert(0 <= doy <= 365 && (doy == 365 ==> leap_year(yoe + 1))) by (nonlinear_arith)
        requires
            0 <= doe <= 146096,
            yoe == (doe - doe / 1460 + doe / 36524 - doe / 146096) / 365,
            doy == doe - (365 * yoe + yoe / 4 - yoe / 100),
    ;
}

/// Days in month `m` (1 to 12) of year `y`.
pub open spec fn days_in_month(y: int, m: int) -> int {
    if m == 2 {
        if leap_year(y) { 29 } else { 28 }
    } else if m == 4 || m == 6 || m == 9 || m == 11 {
        30
    } else {
        31
    }
}

/// Days of year `y` before the first of month `m`.
pub open spec fn days_before_month(y: int, m: int) -> int {
    let base: int = if m <= 1 {
        0
    } else if m == 2 {
        31
    } else if m == 3 {
        59
    } else if m == 4 {
        90
    } else if m == 5 {
        120
    } else if m == 6 {
        151
    } else if m == 7 {
        181
    } else if m == 8 {
        212
    } else if m == 9 {
        243
    } else if m == 10 {
        273
    } else if m == 11 {
        304
    } else {
        334
    };
    base + if m > 2 && leap_year(y) { 1int } else { 0int }
}

/// Leap years from year 1 up to year `y - 1` (negative for years before 1).
pub open spec fn leaps_before(y: int) -> int {
    (y - 1) / 4 - (y - 1) / 100 + (y - 1) / 400
}

/// The number of days from 1970-01-01 to the date `y-m-d`.
pub open spec fn days_from_civil(y: int, m: int, d: int) -> int {
    365 * (y - 1970) + leaps_before(y) - leaps_before(1970) + days_before_month(y, m) + d - 1
}

/// The year of the date `days` days after 1970-01-01, by the same era
/// arithmetic as [`civil_month_day`].
pub open spec fn civil_year(days: int) -> int {
    let z = days + 719468;
    let era = z / 146097;
    let doe = z - era * 146097;
    let yoe = (doe - doe / 1460 + doe / 36524 - doe / 146096) / 365;
    let doy = doe - (365 * yoe + yoe / 4 - yoe / 100);
    let mp = (5 * doy + 2) / 153;
    era * 400 + yoe + if mp >= 10 { 1int } else { 0int }
}

proof fn lemma_month_of_year(yoe: int, doy: int)
    requires
        0 <= yoe <= 399,
        0 <= doy <= 365,
        doy == 365 ==> leap_year(yoe + 1),
    ensures
        ({
            let mp = (5 * doy + 2) / 153;
            let d = doy - (153 * mp + 2) / 5 + 1;
            let m = if mp < 10 { mp + 3 } else { mp - 9 };
            let y = yoe + if mp >= 10 { 1int } else { 0int };
            &&& 0 <= mp <= 11
            &&& 1 <= m <= 12
            &&& 1 <= d <= days_in_month(y, m)
        }),
{
    let mp = (5 * doy + 2) / 153;
    let d = doy - (153 * mp + 2) / 5 + 1;
    assert(0 <= mp <= 11 && 1 <= d <= 31) by (nonlinear_arith)
        requires
            0 <= doy <= 365,
            mp == (5 * doy + 2) / 153,
            d == doy - (153 * mp + 2) / 5 + 1,
    ;
    assert(mp == 1 || mp == 3 || mp == 6 || mp == 8 ==> d <= 30) by (nonlinear_arith)
        requires
            0 <= doy <= 365,
            mp == (5 * doy + 2) / 153,
            d == doy - (153 * mp + 2) / 5 + 1,
    ;
    assert(mp == 11 ==> d <= 29 && (d == 29 ==> doy == 365)) by (nonlinear_arith)
        requires
            0 <= doy <= 365,
            mp == (5 * doy + 2) / 153,
            d == doy - (153 * mp + 2) / 5 + 1,
    ;
}

proof fn lemma_leaps_step(y: int)
    ensures
        leaps_before(y) + (if leap_year(y) { 1int } else { 0int }) == leaps_before(y + 1),
{
    assert(leaps_before(y) + (if leap_year(y) { 1int } else { 0int }) == y / 4 - y / 100 + y / 400)
        by (nonlinear_arith);
}

proof fn lemma_era_shift(era: int, y: int)
    ensures
        leaps_before(era * 400 + y) == 97 * era + leaps_before(y),
        leap_year(era * 400 + y) == leap_year(y),
{
    assert(leaps_before(era * 400 + y) == 97 * era + leaps_before(y)) by (nonlinear_arith);
    assert(leap_year(era * 400 + y) == leap_year(y)) by (nonlinear_arith);
}

proof fn lemma_date_in_era(yoe: int, doy: int)
    requires
        0 <= yoe <= 399,
        0 <= doy <= 365,
    ensures
        ({
            let mp = (5 * doy + 2) / 153;
            let d = doy - (153 * mp + 2) / 5 + 1;
            let m = if mp < 10 { mp + 3 } else { mp - 9 };
            let y = yoe + if mp >= 10 { 1int } else { 0int };
            days_from_civil(y, m, d) + 719468 == 365 * yoe + yoe / 4 - yoe / 100 + doy
        }),
{
    let mp = (5 * doy + 2) / 153;
    let d = doy - (153 * mp + 2) / 5 + 1;
    let m = if mp < 10 { mp + 3 } else { mp - 9 };
    let y = yoe + if mp >= 10 { 1int } else { 0int };
    assert(0 <= mp <= 11) by (nonlinear_arith)
        requires
            0 <= doy <= 365,
            mp == (5 * doy + 2) / 153,
    ;
    assert(leaps_before(1970) == 477);
    if mp < 10 {
        lemma_leaps_step(yoe);
        assert(yoe / 400 == 0);
        assert(days_before_month(y, m) == 59 + (if leap_year(yoe) { 1int } else { 0int }) + (153 * mp + 2) / 5);
    } else {
        assert((yoe + 1 - 1) / 400 == 0);
        assert(days_before_month(y, m) == (153 * mp + 2) / 5 - 306);
    }
}

/// Law: every day count is shown as a real calendar date. The month and day
/// that timestamps are printed with, taken with the year that the same era
/// arithmetic gives, form a valid date of the proleptic Gregorian calendar
/// that lies exactly `days` days after 1970-01-01.
pub proof fn shown_dates_are_calendar_dates(days: int)
    ensures
        1 <= civil_month_day(days).0 <= 12,
        1 <= civil_month_day(days).1 <= days_in_month(civil_year(days), civil_month_day(days).0),
        days_from_civil(civil_year(days), civil_month_day(days).0, civil_month_day(days).1) == days,
{
    let z = days + 719468;
    let era = z / 146097;
    let doe = z - era * 146097;
    assert(0 <= doe < 146097) by (nonlinear_arith)
        requires
            era == z / 146097,
            doe == z - era * 146097,
    ;
    lemma_year_of_era(doe);
    let yoe = (doe - doe / 1460 + doe / 36524 - doe / 146096) / 365;
    let doy = doe - (365 * yoe + yoe / 4 - yoe / 100);
    lemma_month_of_year(yoe, doy);
    lemma_date_in_era(yoe, doy);
    let mp = (5 * doy + 2) / 153;
    let d = doy - (153 * mp + 2) / 5 + 1;
    let m = if mp < 10 { mp + 3 } else { mp - 9 };
    let y = yoe + if mp >= 10 { 1int } else { 0int };
    assert(civil_month_day(days) == (m, d));
    assert(civil_year(days) == era * 400 + y);
    lemma_era_shift(era, y);
    assert(days_before_month(era * 400 + y, m) == days_before_month(y, m));
    assert(days_in_month(era * 400 + y, m) == days_in_month(y, m));
    assert(days_from_civil(era * 400 + y, m, d) == days_from_civil(y, m, d) + 146097 * era) by (nonlinear_arith)
        requires
            leaps_before(era * 400 + y) == 97 * era + leaps_before(y),
            days_before_month(era * 400 + y, m) == days_before_month(y, m),
    ;
}

} // verus!
