//! Log lines: UTC timestamps, and which levels are written.

use crate::config::LogLevel;
use crate::text::{decimal, show_number};
use vstd::prelude::*;
use vstd::string::*;

verus! {

// ---------- levels ----------

/// How much a level tells: errors least, traces most.
pub open spec fn verbosity(level: LogLevel) -> int {
    match level {
        LogLevel::Error => 1,
        LogLevel::Warn => 2,
        LogLevel::Info => 3,
        LogLevel::Debug => 4,
        LogLevel::Trace => 5,
    }
}

fn rank(level: LogLevel) -> (r: u8)
    ensures
        r == verbosity(level),
{
    match level {
        LogLevel::Error => 1,
        LogLevel::Warn => 2,
        LogLevel::Info => 3,
        LogLevel::Debug => 4,
        LogLevel::Trace => 5,
    }
}

/// Whether a message is written by a logger that is set to `limit`.
pub fn enabled(level: LogLevel, limit: LogLevel) -> (r: bool)
    ensures
        r == (verbosity(level) <= verbosity(limit)),
{
    rank(level) <= rank(limit)
}

/// The level that a run logs at: `--verbose` overrides the configuration.
pub fn effective_level(verbose: bool, configured: LogLevel) -> (r: LogLevel)
    ensures
        r == if verbose {
            LogLevel::Debug
        } else {
            configured
        },
{
    if verbose {
        LogLevel::Debug
    } else {
        configured
    }
}

/// The name of a level, filled up to five characters.
pub open spec fn level_name(level: LogLevel) -> Seq<char> {
    match level {
        LogLevel::Error => "ERROR"@,
        LogLevel::Warn => "WARN "@,
        LogLevel::Info => "INFO "@,
        LogLevel::Debug => "DEBUG"@,
        LogLevel::Trace => "TRACE"@,
    }
}

/// One line of the log.
pub fn log_line(stamp: &str, level: LogLevel, target: &str, message: &str) -> (line: String)
    ensures
        line@ == stamp@ + " "@ + level_name(level) + " "@ + target@ + ": "@ + message@ + "\n"@,
{
    let mut line: String = stamp.to_owned();
    line.append(" ");
    line.append(
        match level {
            LogLevel::Error => "ERROR",
            LogLevel::Warn => "WARN ",
            LogLevel::Info => "INFO ",
            LogLevel::Debug => "DEBUG",
            LogLevel::Trace => "TRACE",
        },
    );
    line.append(" ");
    line.append(target);
    line.append(": ");
    line.append(message);
    line.append("\n");
    line
}

// ---------- the calendar ----------

/// Whether a year of the Gregorian calendar has a February 29th.
pub open spec fn is_leap(y: int) -> bool {
    y % 4 == 0 && (y % 100 != 0 || y % 400 == 0)
}

pub open spec fn days_in_year(y: int) -> int {
    if is_leap(y) {
        366
    } else {
        365
    }
}

pub open spec fn days_in_month(y: int, m: int) -> int {
    if m == 2 {
        if is_leap(y) {
            29
        } else {
            28
        }
    } else if m == 4 || m == 6 || m == 9 || m == 11 {
        30
    } else {
        31
    }
}

/// The days of the year before the first of a month.
pub open spec fn days_before_month(y: int, m: int) -> int
    decreases m,
{
    if m <= 1 {
        0
    } else {
        days_before_month(y, m - 1) + days_in_month(y, m - 1)
    }
}

/// The days between January 1st of the years 1 and `y`.
pub open spec fn days_before_year(y: int) -> int {
    365 * (y - 1) + (y - 1) / 4 - (y - 1) / 100 + (y - 1) / 400
}

/// The days between 1970-01-01 and a date.
pub open spec fn day_number(y: int, m: int, d: int) -> int {
    days_before_year(y) - days_before_year(1970) + days_before_month(y, m) + d - 1
}

pub open spec fn is_date(y: int, m: int, d: int) -> bool {
    1 <= m <= 12 && 1 <= d <= days_in_month(y, m)
}

/// The days before a year are those of all years before it.
pub proof fn law_years_add_up(y: int)
    ensures
        days_before_year(y + 1) == days_before_year(y) + days_in_year(y),
        days_before_year(1) == 0,
        days_before_month(y, 12) + days_in_month(y, 12) == days_in_year(y),
{
    assert(y / 4 - (y - 1) / 4 == if y % 4 == 0 {
        1int
    } else {
        0
    });
    assert(y / 100 - (y - 1) / 100 == if y % 100 == 0 {
        1int
    } else {
        0
    });
    assert(y / 400 - (y - 1) / 400 == if y % 400 == 0 {
        1int
    } else {
        0
    });
    assert(y % 400 == 0 ==> y % 100 == 0);
    assert(y % 100 == 0 ==> y % 4 == 0);
    lemma_months_add_up(y);
}

proof fn lemma_months_add_up(y: int)
    ensures
        days_before_month(y, 12) + days_in_month(y, 12) == days_in_year(y),
{
    reveal_with_fuel(days_before_month, 13);
}

/// Days since 1970-01-01 -> (year, month, day).
pub fn civil_from_days(z: i64) -> (date: (i64, u32, u32))
    requires
        z <= i64::MAX - 719_468,
    ensures
        is_date(date.0 as int, date.1 as int, date.2 as int),
        day_number(date.0 as int, date.1 as int, date.2 as int) == z,
{
    // Years are counted from March, so that a leap day is the last of its year,
    // in eras of 400 years.
    let shifted: i64 = z + 719_468;
    let era: i64 = if shifted >= 0 {
        shifted / 146_097
    } else {
        -((146_096 - shifted) / 146_097)
    };
    let doe: i64 = shifted - era * 146_097;
    assert(0 <= doe < 146_097);
    let century: i64 = if doe / 36_524 > 3 {
        3
    } else {
        doe / 36_524
    };
    let in_century: i64 = doe - century * 36_524;
    let quad: i64 = in_century / 1_461;
    let in_quad: i64 = in_century - quad * 1_461;
    let year: i64 = if in_quad / 365 > 3 {
        3
    } else {
        in_quad / 365
    };
    let doy: i64 = in_quad - year * 365;
    let yoe: i64 = century * 100 + quad * 4 + year;
    let mp: i64 = (5 * doy + 2) / 153;
    let d: i64 = doy - (153 * mp + 2) / 5 + 1;
    let m: i64 = if mp < 10 {
        mp + 3
    } else {
        mp - 9
    };
    let y: i64 = yoe + era * 400 + if m <= 2 {
        1
    } else {
        0
    };
    proof {
        lemma_civil(
            z as int,
            era as int,
            century as int,
            quad as int,
            year as int,
            doy as int,
            mp as int,
        );
    }
    (y, m as u32, d as u32)
}

/// The first day of a month, counted from March 1st.
spec fn march_based(mp: int) -> int {
    (153 * mp + 2) / 5
}

/// The first day of a month, counted from January 1st of a common year.
spec fn january_based(m: int) -> int {
    if m == 1 {
        0
    } else if m == 2 {
        31
    } else if m == 3 {
        59
    } else if m == 4 {
        90
    } else if m == 5 {
        120
    } else if m == 6 {
        151
    } else if m == 7 {
        181
    } else if m == 8 {
        212
    } else if m == 9 {
        243
    } else if m == 10 {
        273
    } else if m == 11 {
        304
    } else {
        334
    }
}

proof fn lemma_month_starts(y: int, m: int)
    requires
        1 <= m <= 12,
    ensures
        days_before_month(y, m) == january_based(m) + if m > 2 && is_leap(y) {
            1int
        } else {
            0
        },
{
    reveal_with_fuel(days_before_month, 13);
}

proof fn lemma_march_months(doy: int, mp: int)
    requires
        0 <= doy <= 365,
        mp == (5 * doy + 2) / 153,
    ensures
        0 <= mp <= 11,
        mp < 10 ==> march_based(mp) == january_based(mp + 3) - 59,
        mp >= 10 ==> march_based(mp) == january_based(mp - 9) + 306,
        march_based(mp) <= doy,
        mp < 11 ==> doy < march_based(mp + 1),
        mp == 11 ==> doy - march_based(mp) <= 28,
        doy == 365 ==> mp == 11,
{
    assert(0 <= mp <= 11);
    if mp == 0 {
    } else if mp == 1 {
    } else if mp == 2 {
    } else if mp == 3 {
    } else if mp == 4 {
    } else if mp == 5 {
    } else if mp == 6 {
    } else if mp == 7 {
    } else if mp == 8 {
    } else if mp == 9 {
    } else if mp == 10 {
    } else {
    }
}

/// The days before the January that ends a year counted from March.
#[verifier::rlimit(50)]
#[verifier::spinoff_prover]
proof fn lemma_march_years(era: int, century: int, quad: int, year: int)
    requires
        0 <= century <= 3,
        0 <= quad <= 24,
        0 <= year <= 3,
    ensures
        ({
            let n = era * 400 + century * 100 + quad * 4 + year;
            &&& days_before_year(n + 1) == 365 * n + era * 97 + century * 24 + quad
            &&& is_leap(n + 1) == (year == 3 && (quad != 24 || century == 3))
            &&& days_before_year(n) == days_before_year(n + 1) - days_in_year(n)
        }),
{
    let n = era * 400 + century * 100 + quad * 4 + year;
    assert(n / 4 == era * 100 + century * 25 + quad);
    assert(n / 100 == era * 4 + century);
    assert(n / 400 == era);
    assert((n + 1) % 4 == 0 <==> year == 3);
    assert((n + 1) % 100 == 0 <==> quad == 24 && year == 3);
    assert((n + 1) % 400 == 0 <==> century == 3 && quad == 24 && year == 3);
    law_years_add_up(n);
}

proof fn lemma_civil(z: int, era: int, century: int, quad: int, year: int, doy: int, mp: int)
    requires
        z + 719_468 == era * 146_097 + century * 36_524 + quad * 1_461 + year * 365 + doy,
        0 <= century <= 3,
        0 <= quad <= 24,
        0 <= year <= 3,
        0 <= doy <= 365,
        doy == 365 ==> year == 3,
        quad == 24 && year == 3 && doy == 365 ==> century == 3,
        mp == (5 * doy + 2) / 153,
    ensures
        ({
            let d = doy - march_based(mp) + 1;
            let m = if mp < 10 {
                mp + 3
            } else {
                mp - 9
            };
            let y = era * 400 + century * 100 + quad * 4 + year + if m <= 2 {
                1int
            } else {
                0
            };
            &&& 0 <= mp <= 11
            &&& is_date(y, m, d)
            &&& day_number(y, m, d) == z
        }),
{
    let n = era * 400 + century * 100 + quad * 4 + year;
    let d = doy - march_based(mp) + 1;
    lemma_march_months(doy, mp);
    lemma_march_years(era, century, quad, year);
    assert(days_before_year(1970) == 719_162);
    if mp < 10 {
        lemma_month_starts(n, mp + 3);
        lemma_month_length(mp);
        assert(is_date(n, mp + 3, d));
        assert(day_number(n, mp + 3, d) == z);
    } else {
        lemma_month_starts(n + 1, mp - 9);
        lemma_month_length(mp);
        assert(is_date(n + 1, mp - 9, d));
        assert(day_number(n + 1, mp - 9, d) == z);
    }
}

/// The months from March to January are as long as the distance of their
/// starts.
proof fn lemma_month_length(mp: int)
    requires
        0 <= mp <= 11,
    ensures
        mp < 10 ==> forall|y: int| #[trigger] days_in_month(y, mp + 3) == march_based(mp + 1)
            - march_based(mp),
        mp == 10 ==> march_based(11) - march_based(10) == 31,
{
    if mp == 0 {
    } else if mp == 1 {
    } else if mp == 2 {
    } else if mp == 3 {
    } else if mp == 4 {
    } else if mp == 5 {
    } else if mp == 6 {
    } else if mp == 7 {
    } else if mp == 8 {
    } else if mp == 9 {
    } else {
    }
}

// ---------- timestamps ----------

/// `n` in decimal, filled up with zeros to at least `width` digits.
pub open spec fn padded(n: nat, width: nat) -> Seq<char>
    decreases width,
{
    if width <= 1 || decimal(n).len() >= width {
        decimal(n)
    } else {
        Seq::new((width - decimal(n).len()) as nat, |i: int| '0') + decimal(n)
    }
}

fn show_padded(n: u64, width: usize) -> (out: String)
    ensures
        out@ == padded(n as nat, width as nat),
{
    let digits: String = show_number(n);
    let len: usize = digits.as_str().unicode_len();
    if width <= 1 || len >= width {
        return digits;
    }
    let mut out: String = String::new();
    let mut i: usize = 0;
    while i < width - len
        invariant
            i <= width - len,
            out@ == Seq::new(i as nat, |k: int| '0'),
        decreases width - len - i,
    {
        out.push('0');
        assert(Seq::new((i + 1) as nat, |k: int| '0') =~= Seq::new(i as nat, |k: int| '0').push('0'));
        i = i + 1;
    }
    out.append(digits.as_str());
    out
}

/// How a time of day on a date is written.
pub open spec fn stamp(y: nat, m: nat, d: nat, tod: nat, millis: nat) -> Seq<char> {
    padded(y, 4) + "-"@ + padded(m, 2) + "-"@ + padded(d, 2) + "T"@ + padded(tod / 3600, 2) + ":"@
        + padded((tod % 3600) / 60, 2) + ":"@ + padded(tod % 60, 2) + "."@ + padded(millis, 3)
        + "Z"@
}

/// The time `secs` seconds and `millis` milliseconds after the start of 1970,
/// in UTC.
pub fn timestamp(secs: u64, millis: u32) -> (text: String)
    requires
        secs <= i64::MAX,
    ensures
        exists|y: int, m: int, d: int|
            is_date(y, m, d) && 0 <= y && #[trigger] day_number(y, m, d) == secs / 86_400 && text@
                == stamp(y as nat, m as nat, d as nat, (secs % 86_400) as nat, millis as nat),
{
    let days: i64 = (secs / 86_400) as i64;
    let tod: u64 = secs % 86_400;
    let (y, m, d): (i64, u32, u32) = civil_from_days(days);
    proof {
        lemma_not_before_1970(y as int, m as int, d as int);
    }
    let mut out: String = show_padded(y as u64, 4);
    out.append("-");
    out.append(show_padded(m as u64, 2).as_str());
    out.append("-");
    out.append(show_padded(d as u64, 2).as_str());
    out.append("T");
    out.append(show_padded(tod / 3600, 2).as_str());
    out.append(":");
    out.append(show_padded((tod % 3600) / 60, 2).as_str());
    out.append(":");
    out.append(show_padded(tod % 60, 2).as_str());
    out.append(".");
    out.append(show_padded(millis as u64, 3).as_str());
    out.append("Z");
    proof {
        assert(day_number(y as int, m as int, d as int) == secs / 86_400);
    }
    out
}

proof fn lemma_not_before_1970(y: int, m: int, d: int)
    requires
        is_date(y, m, d),
        day_number(y, m, d) >= 0,
    ensures
        y >= 1970,
{
    reveal_with_fuel(days_before_month, 13);
    if y < 1970 {
        law_years_add_up(y);
        assert(days_before_month(y, m) + d <= days_in_year(y));
        lemma_years_grow(y + 1, 1970);
    }
}

proof fn lemma_years_grow(a: int, b: int)
    requires
        a <= b,
    ensures
        days_before_year(a) <= days_before_year(b),
    decreases b - a,
{
    if a < b {
        law_years_add_up(a);
        lemma_years_grow(a + 1, b);
    }
}

/// A day has one date: no two dates have the same number of days since 1970.
pub proof fn law_dates_are_unique(y: int, m: int, d: int, y2: int, m2: int, d2: int)
    requires
        is_date(y, m, d),
        is_date(y2, m2, d2),
        day_number(y, m, d) == day_number(y2, m2, d2),
    ensures
        y == y2 && m == m2 && d == d2,
{
    reveal_with_fuel(days_before_month, 13);
    law_years_add_up(y);
    law_years_add_up(y2);
    if y < y2 {
        lemma_years_grow(y + 1, y2);
    } else if y2 < y {
        lemma_years_grow(y2 + 1, y);
    }
}

} // verus!
