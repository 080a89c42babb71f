//! The proleptic Gregorian calendar, as far as the contracts need it: the
//! month and day of a day counted from 1970-01-01, and which instants lie in
//! the range of dates that chrono holds.

use vstd::prelude::*;

verus! {

/// The month (1 to 12) and day of the month of the day `z`, counted in days
/// from 1970-01-01 (day 0), in the proleptic Gregorian calendar. The count is
/// cut into eras of 400 years (146097 days) that start on March 1; within an
/// era, the year starts in March so that the leap day comes last.
pub open spec fn civil_month_day(z: int) -> (int, int) {
    let z2 = z + 719468;
    let era = z2 / 146097;
    let doe = z2 - era * 146097;
    let yoe = (doe - doe / 1460 + doe / 36524 - doe / 146096) / 365;
    let doy = doe - (365 * yoe + yoe / 4 - yoe / 100);
    let mp = (5 * doy + 2) / 153;
    let d = doy - (153 * mp + 2) / 5 + 1;
    let m = if mp < 10 { mp + 3 } else { mp - 9 };
    (m, d)
}

/// `md` (month, day) is the date of the instant `t` (seconds since
/// 1970-01-01 00:00 UTC) in UTC, or the date before or after it: the date of
/// that instant in any time zone whose offset from UTC is less than a day.
pub open spec fn near_utc_date(md: (u32, u32), t: int) -> bool {
    let z = t / 86400;
    ||| (md.0 as int, md.1 as int) == civil_month_day(z - 1)
    ||| (md.0 as int, md.1 as int) == civil_month_day(z)
    ||| (md.0 as int, md.1 as int) == civil_month_day(z + 1)
}

/// The instant `t` (seconds since 1970-01-01 00:00 UTC) lies well inside the
/// range of dates that chrono holds (years -262143 to 262142): within
/// 8 * 10^12 seconds, about 253,000 years, of 1970.
pub open spec fn in_date_range(t: int) -> bool {
    -8_000_000_000_000 <= t <= 8_000_000_000_000
}

} // verus!
