//! Verified civil-calendar conversion: from days since the Unix epoch to
//! year, month and day of month, for the date labels of the historical
//! chart series. The conversion is proved to invert the day count of the
//! proleptic Gregorian calendar.

use vstd::prelude::*;

verus! {

/// Whether a year is a leap year in the Gregorian calendar.
pub open spec fn spec_is_leap(y: int) -> bool {
    y % 4 == 0 && (y % 100 != 0 || y % 400 == 0)
}

pub open spec fn spec_days_in_year(y: int) -> int {
    if spec_is_leap(y) {
        366
    } else {
        365
    }
}

/// Days in one month; `m` counts from 1.
pub open spec fn spec_days_in_month(y: int, m: int) -> int {
    if m == 2 {
        if spec_is_leap(y) {
            29
        } else {
            28
        }
    } else if m == 4 || m == 6 || m == 9 || m == 11 {
        30
    } else {
        31
    }
}

/// Days from the epoch to the first day of year `y` (for `y >= 1970`).
pub open spec fn spec_days_before_year(y: int) -> int
    decreases y,
{
    if y <= 1970 {
        0
    } else {
        spec_days_before_year(y - 1) + spec_days_in_year(y - 1)
    }
}

/// Days from the first of January to the first day of month `m`.
pub open spec fn spec_days_before_month(y: int, m: int) -> int
    decreases m,
{
    if m <= 1 {
        0
    } else {
        spec_days_before_month(y, m - 1) + spec_days_in_month(y, m - 1)
    }
}

/// The day count of a civil date: how many days after the epoch the date
/// `y-m-d` falls (for dates from 1970 on).
pub open spec fn spec_days_from_civil(y: int, m: int, d: int) -> int {
    spec_days_before_year(y) + spec_days_before_month(y, m) + (d - 1)
}

/// Walks years forward from `y` until fewer than a year of days is left.
pub open spec fn spec_year_split(y: int, z: int) -> (int, int)
    decreases z,
{
    if z < spec_days_in_year(y) {
        (y, z)
    } else {
        spec_year_split(y + 1, z - spec_days_in_year(y))
    }
}

/// Walks months forward from `m` until fewer than a month of days is left.
pub open spec fn spec_month_split(y: int, m: int, z: int) -> (int, int)
    decreases 12 - m,
{
    if m >= 12 || z < spec_days_in_month(y, m) {
        (m, z)
    } else {
        spec_month_split(y, m + 1, z - spec_days_in_month(y, m))
    }
}

/// The civil date `(year, month, day)` that day `z` of the epoch falls on.
pub open spec fn spec_civil_of_day(z: int) -> (int, int, int) {
    let yr = spec_year_split(1970, z);
    let md = spec_month_split(yr.0, 1, yr.1);
    (yr.0, md.0, md.1 + 1)
}

proof fn lemma_year_split_props(y0: int, z: int)
    requires
        y0 >= 1970,
        z >= 0,
    ensures
        spec_year_split(y0, z).0 >= y0,
        0 <= spec_year_split(y0, z).1 < spec_days_in_year(spec_year_split(y0, z).0),
        spec_days_before_year(spec_year_split(y0, z).0) + spec_year_split(y0, z).1
            == spec_days_before_year(y0) + z,
    decreases z,
{
    if z >= spec_days_in_year(y0) {
        lemma_year_split_props(y0 + 1, z - spec_days_in_year(y0));
    }
}

proof fn lemma_month_split_props(y: int, m0: int, z: int)
    requires
        1 <= m0 <= 12,
        z >= 0,
        z < spec_days_before_month(y, 13) - spec_days_before_month(y, m0),
    ensures
        m0 <= spec_month_split(y, m0, z).0 <= 12,
        0 <= spec_month_split(y, m0, z).1 < spec_days_in_month(y, spec_month_split(y, m0, z).0),
        spec_days_before_month(y, spec_month_split(y, m0, z).0) + spec_month_split(y, m0, z).1
            == spec_days_before_month(y, m0) + z,
    decreases 12 - m0,
{
    if !(m0 >= 12 || z < spec_days_in_month(y, m0)) {
        lemma_month_split_props(y, m0 + 1, z - spec_days_in_month(y, m0));
    } else if m0 >= 12 && z >= spec_days_in_month(y, m0) {
        assert(spec_days_before_month(y, 13) == spec_days_before_month(y, 12)
            + spec_days_in_month(y, 12));
        assert(false);
    }
}

/// A year's length is the sum of its months' lengths.
proof fn lemma_months_cover_year(y: int)
    ensures
        spec_days_before_month(y, 13) == spec_days_in_year(y),
{
    assert(spec_days_before_month(y, 13) == spec_days_in_year(y)) by {
        reveal_with_fuel(spec_days_before_month, 13);
    }
}

/// The calendar law: converting a day count to a civil date yields a
/// real date (month in range, day within the month's length) whose day
/// count is the one converted.
pub proof fn lemma_civil_round_trip(z: int)
    requires
        z >= 0,
    ensures
        ({
            let ymd = spec_civil_of_day(z);
            &&& ymd.0 >= 1970
            &&& 1 <= ymd.1 <= 12
            &&& 1 <= ymd.2 <= spec_days_in_month(ymd.0, ymd.1)
            &&& spec_days_from_civil(ymd.0, ymd.1, ymd.2) == z
        }),
{
    lemma_year_split_props(1970, z);
    let yr = spec_year_split(1970, z);
    lemma_months_cover_year(yr.0);
    lemma_month_split_props(yr.0, 1, yr.1);
}

/// Converts a day count to the civil date it falls on.
pub fn civil_from_days(z: i64) -> (r: (i64, u8, u8))
    requires
        z >= 0,
    ensures
        (r.0 as int, r.1 as int, r.2 as int) == spec_civil_of_day(z as int),
{
    let mut y: i64 = 1970;
    let mut rem: i64 = z;
    loop
        invariant
            1970 <= y,
            (y - 1970) * 365 <= z - rem,
            rem >= 0,
            z >= 0,
            rem <= z,
            spec_year_split(y as int, rem as int) == spec_year_split(1970, z as int),
        ensures
            y as int == spec_year_split(1970, z as int).0,
            rem as int == spec_year_split(1970, z as int).1,
            rem < spec_days_in_year(y as int),
        decreases rem,
    {
        let yu = y as u64;
        let leap = (yu % 4 == 0) && (yu % 100 != 0 || yu % 400 == 0);
        assert(leap == spec_is_leap(y as int));
        let dy: i64 = if leap {
            366
        } else {
            365
        };
        assert(dy as int == spec_days_in_year(y as int));
        if rem < dy {
            break ;
        }
        rem = rem - dy;
        y = y + 1;
    }
    let ghost gy = y as int;
    let mut m: u8 = 1;
    loop
        invariant
            1 <= m <= 12,
            rem >= 0,
            1970 <= y,
            gy == y as int,
            gy == spec_year_split(1970, z as int).0,
            spec_month_split(gy, m as int, rem as int) == spec_month_split(
                gy,
                1,
                spec_year_split(1970, z as int).1,
            ),
        ensures
            m as int == spec_month_split(gy, 1, spec_year_split(1970, z as int).1).0,
            rem as int == spec_month_split(gy, 1, spec_year_split(1970, z as int).1).1,
            rem <= 30,
        decreases 12 - m,
    {
        let yu = y as u64;
        let leap = (yu % 4 == 0) && (yu % 100 != 0 || yu % 400 == 0);
        assert(leap == spec_is_leap(y as int));
        let dm: i64 = if m == 2 {
            if leap {
                29
            } else {
                28
            }
        } else if m == 4 || m == 6 || m == 9 || m == 11 {
            30
        } else {
            31
        };
        assert(dm as int == spec_days_in_month(gy, m as int));
        if m >= 12 || rem < dm {
            proof {
                if m >= 12 && rem >= dm {
                    lemma_year_split_props(1970, z as int);
                    lemma_months_cover_year(gy);
                    lemma_month_split_props(gy, 1, spec_year_split(1970, z as int).1);
                }
            }
            break ;
        }
        rem = rem - dm;
        m = m + 1;
    }
    proof {
        lemma_year_split_props(1970, z as int);
        lemma_months_cover_year(gy);
        lemma_month_split_props(gy, 1, spec_year_split(1970, z as int).1);
    }
    (y, m, (rem + 1) as u8)
}

/// A number rendered as two digits, zero-padded.
pub open spec fn spec_two_digit(d: nat) -> Seq<char> {
    if d < 10 {
        seq!['0'] + crate::text::spec_decimal(d)
    } else {
        crate::text::spec_decimal(d)
    }
}

/// The customary three-letter abbreviation of a month's name.
pub open spec fn spec_month_abbrev(m: int) -> Seq<char> {
    if m == 1 { "Jan"@ }
    else if m == 2 { "Feb"@ }
    else if m == 3 { "Mar"@ }
    else if m == 4 { "Apr"@ }
    else if m == 5 { "May"@ }
    else if m == 6 { "Jun"@ }
    else if m == 7 { "Jul"@ }
    else if m == 8 { "Aug"@ }
    else if m == 9 { "Sep"@ }
    else if m == 10 { "Oct"@ }
    else if m == 11 { "Nov"@ }
    else { "Dec"@ }
}

/// The two-digit day-of-month label of day `z` of the epoch.
pub open spec fn spec_day_label(z: int) -> Seq<char> {
    spec_two_digit(spec_civil_of_day(z).2 as nat)
}

/// The "month day" label of day `z` of the epoch.
pub open spec fn spec_month_day_label(z: int) -> Seq<char> {
    spec_month_abbrev(spec_civil_of_day(z).1) + seq![' '] + spec_two_digit(
        spec_civil_of_day(z).2 as nat,
    )
}

/// Renders a day of month as two digits, zero-padded.
fn two_digit(d: u8) -> (s: String)
    ensures
        s@ == spec_two_digit(d as nat),
{
    if d < 10 {
        let mut s = String::from_str("0");
        let digits = crate::text::u64_to_string(d as u64);
        s.append(digits.as_str());
        proof {
            reveal_strlit("0");
            assert(s@ =~= spec_two_digit(d as nat));
        }
        s
    } else {
        crate::text::u64_to_string(d as u64)
    }
}

/// Renders the day-of-month label of day `z` of the epoch.
pub fn day_label(z: i64) -> (s: String)
    requires
        z >= 0,
    ensures
        s@ == spec_day_label(z as int),
{
    let ymd = civil_from_days(z);
    two_digit(ymd.2)
}

/// Renders the "month day" label of day `z` of the epoch.
pub fn month_day_label(z: i64) -> (s: String)
    requires
        z >= 0,
    ensures
        s@ == spec_month_day_label(z as int),
{
    let ymd = civil_from_days(z);
    let mut s = match ymd.1 {
        1 => String::from_str("Jan"),
        2 => String::from_str("Feb"),
        3 => String::from_str("Mar"),
        4 => String::from_str("Apr"),
        5 => String::from_str("May"),
        6 => String::from_str("Jun"),
        7 => String::from_str("Jul"),
        8 => String::from_str("Aug"),
        9 => String::from_str("Sep"),
        10 => String::from_str("Oct"),
        11 => String::from_str("Nov"),
        _ => String::from_str("Dec"),
    };
    s.append(" ");
    let dd = two_digit(ymd.2);
    s.append(dd.as_str());
    proof {
        reveal_strlit(" ");
        lemma_civil_round_trip(z as int);
        assert(s@ =~= spec_month_day_label(z as int));
    }
    s
}

} // verus!
