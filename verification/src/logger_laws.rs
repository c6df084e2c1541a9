//! How levels are ordered and times are written, said of days, digits and places.

use crate::config::LogLevel;
use crate::logger::{
    day_number, days_before_month, is_date, law_years_add_up, level_name, padded, stamp, timestamp,
    verbosity,
};
use crate::text::decimal;
use vstd::prelude::*;
use vstd::string::*;

verus! {

/// Errors tell least; warnings, information, debugging and traces each tell more
/// than those before them. Every name takes five places.
pub proof fn law_levels_are_ordered(level: LogLevel)
    ensures
        verbosity(LogLevel::Error) < verbosity(LogLevel::Warn),
        verbosity(LogLevel::Warn) < verbosity(LogLevel::Info),
        verbosity(LogLevel::Info) < verbosity(LogLevel::Debug),
        verbosity(LogLevel::Debug) < verbosity(LogLevel::Trace),
        level_name(level).len() == 5,
        level_name(LogLevel::Error) == "ERROR"@,
        level_name(LogLevel::Warn) == "WARN "@,
        level_name(LogLevel::Info) == "INFO "@,
        level_name(LogLevel::Debug) == "DEBUG"@,
        level_name(LogLevel::Trace) == "TRACE"@,
{
    reveal_strlit("ERROR");
    reveal_strlit("WARN ");
    reveal_strlit("INFO ");
    reveal_strlit("DEBUG");
    reveal_strlit("TRACE");
}

/// Days are counted from 1970-01-01, one by one: the next day of a month is one
/// further, a month has its 28 to 31 days, and a year 365, or 366 where it is
/// divisible by 4 and not by 100, or by 400.
pub proof fn law_days_follow_each_other(y: int, m: int, d: int)
    requires
        1 <= m <= 12,
    ensures
        ({
            let leap = y % 4 == 0 && y % 100 != 0 || y % 400 == 0;
            let length = day_number(y, m + 1, 1) - day_number(y, m, 1);
            &&& day_number(1970, 1, 1) == 0
            &&& day_number(y, m, d + 1) == day_number(y, m, d) + 1
            &&& day_number(y + 1, 1, 1) - day_number(y, 1, 1) == if leap {
                366int
            } else {
                365
            }
            &&& m == 1 || m == 3 || m == 5 || m == 7 || m == 8 || m == 10 || m == 12 ==> length
                == 31
            &&& m == 4 || m == 6 || m == 9 || m == 11 ==> length == 30
            &&& m == 2 ==> length == if leap {
                29int
            } else {
                28
            }
            &&& is_date(y, m, d) <==> 1 <= d <= length
        }),
        !is_date(y, 0, d),
        !is_date(y, 13, d),
{
    law_years_add_up(y);
    assert(y % 400 == 0 ==> y % 4 == 0);
    assert(days_before_month(1970, 1) == 0);
    assert(days_before_month(y, 1) == 0 && days_before_month(y + 1, 1) == 0);
}

/// A number is filled up with zeros in front, as far as it is too short, and is
/// never cut.
pub proof fn law_padding_goes_in_front(n: nat, width: nat)
    ensures
        ({
            let text = padded(n, width);
            let digits = decimal(n);
            let filled = text.len() - digits.len();
            &&& digits.len() >= width ==> text == digits
            &&& digits.len() < width ==> text.len() == width
            &&& filled >= 0
            &&& text.skip(filled) == digits
            &&& forall|i: int| 0 <= i < filled ==> #[trigger] text[i] == '0'
        }),
{
    let text = padded(n, width);
    let digits = decimal(n);
    assert(digits.len() >= 1);
    assert(text.skip(text.len() - digits.len()) =~= digits);
}

/// A time of day is written in hours, minutes and seconds, between the date and
/// the milliseconds.
pub proof fn law_stamps(y: nat, m: nat, d: nat, hour: nat, minute: nat, second: nat, millis: nat)
    requires
        minute < 60,
        second < 60,
    ensures
        stamp(y, m, d, hour * 3600 + minute * 60 + second, millis) == padded(y, 4) + "-"@ + padded(
            m,
            2,
        ) + "-"@ + padded(d, 2) + "T"@ + padded(hour, 2) + ":"@ + padded(minute, 2) + ":"@ + padded(
            second,
            2,
        ) + "."@ + padded(millis, 3) + "Z"@,
{
    let tod = hour * 3600 + minute * 60 + second;
    assert(tod / 3600 == hour);
    assert(tod % 3600 == minute * 60 + second);
    assert((tod % 3600) / 60 == minute);
    assert(tod % 60 == second);
}

/// A time is written as the date of its day and the time of that day, for every
/// time in seconds and milliseconds since the start of 1970.
pub proof fn law_timestamps(secs: u64, millis: u32, text: String)
    requires
        secs <= i64::MAX,
        call_ensures(timestamp, (secs, millis), text),
    ensures
        exists|y: int, m: int, d: int|
            {
                let hour = ((secs % 86_400) / 3600) as nat;
                let minute = ((secs % 3600) / 60) as nat;
                let second = (secs % 60) as nat;
                is_date(y, m, d) && y >= 0 && #[trigger] day_number(y, m, d) == secs / 86_400
                    && text@ == padded(y as nat, 4) + "-"@ + padded(m as nat, 2) + "-"@ + padded(
                    d as nat,
                    2,
                ) + "T"@ + padded(hour, 2) + ":"@ + padded(minute, 2) + ":"@ + padded(second, 2)
                    + "."@ + padded(millis as nat, 3) + "Z"@
            },
{
    let (y, m, d) = choose|y: int, m: int, d: int|
        is_date(y, m, d) && 0 <= y && #[trigger] day_number(y, m, d) == secs / 86_400 && text@
            == stamp(y as nat, m as nat, d as nat, (secs % 86_400) as nat, millis as nat);
    let tod = secs % 86_400;
    assert(tod % 3600 == secs % 3600);
    assert(tod % 60 == secs % 60);
    assert(day_number(y, m, d) == secs / 86_400);
}

} // verus!
