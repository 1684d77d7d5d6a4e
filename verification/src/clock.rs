//! The time of day at which something was said.

use vstd::prelude::*;
use vstd::string::*;

use crate::number::digit_char;

verus! {

/// The last second that has a date.
pub const LAST_SECOND: i64 = 8210266876799;

/// The first second that has a date.
pub const FIRST_SECOND: i64 = -8334601228800;

/// A number below one hundred, in two digits.
pub open spec fn two_digits(n: int) -> Seq<char> {
    seq![digit_char((n / 10) as nat), digit_char((n % 10) as nat)]
}

/// The hour and the minute of a second since the beginning of 1970, in universal time.
pub open spec fn hour_and_minute(secs: int) -> Seq<char> {
    two_digits(secs % 86400 / 3600) + seq![':'] + two_digits(secs % 3600 / 60)
}

/// Text that may be there, as a value.
pub open spec fn text_model(t: Option<String>) -> Option<Seq<char>> {
    match t {
        Some(s) => Some(s@),
        None => None,
    }
}

/// `chrono::DateTime::from_timestamp` with no part of a second, and
/// `chrono::DateTime::format` with `%H:%M`: the hour and the minute in universal time, two
/// digits each. There is no date before the year -262143 or after the year 262142.
#[verifier::external_body]
fn format_time(secs: i64) -> (r: Option<String>)
    ensures
        text_model(r) == if FIRST_SECOND <= secs <= LAST_SECOND {
            Some(hour_and_minute(secs as int))
        } else {
            None
        },
{
    chrono::DateTime::from_timestamp(secs, 0).map(|t| t.format("%H:%M").to_string())
}

/// What is shown for a time in milliseconds since the beginning of 1970: the hour and the
/// minute, or question marks if it is too far off to have a date.
pub open spec fn time_shown(millis: u64) -> Seq<char> {
    let secs = millis as int / 1000;
    if secs <= LAST_SECOND {
        hour_and_minute(secs)
    } else {
        "??:??"@
    }
}

/// What is shown for a time.
pub fn show_time(millis: u64) -> (r: String)
    ensures
        r@ == time_shown(millis),
{
    match format_time((millis / 1000) as i64) {
        Some(text) => text,
        None => "??:??".to_owned(),
    }
}

/// A day later the time of day is the same.
pub proof fn law_times_of_day_come_again(millis: u64)
    requires
        millis / 1000 + 86400 <= LAST_SECOND,
    ensures
        time_shown((millis + 86400000) as u64) == time_shown(millis),
{
    let secs = millis as int / 1000;
    assert((millis + 86400000) / 1000 == secs + 86400);
    assert((secs + 86400) % 86400 == secs % 86400);
    assert((secs + 86400) % 3600 == secs % 3600);
}

/// The time shown is the hour and the minute of the day, with two digits each, that a time in
/// milliseconds since the beginning of 1970 falls into, as long as the calendar goes.
pub proof fn law_times_are_shown(hours: int, minutes: int, rest: int, days: int, millis: u64)
    requires
        0 <= hours < 24,
        0 <= minutes < 60,
        0 <= rest < 60_000,
        0 <= days,
        millis == days * 86_400_000 + hours * 3_600_000 + minutes * 60_000 + rest,
    ensures
        millis < 8_210_266_876_800_000 ==> time_shown(millis) == seq![
            (48 + hours / 10) as char,
            (48 + hours % 10) as char,
            ':',
            (48 + minutes / 10) as char,
            (48 + minutes % 10) as char,
        ],
        millis >= 8_210_266_876_800_000 ==> time_shown(millis) == "??:??"@,
{
    let secs = millis as int / 1000;
    let of_day = hours * 3600 + minutes * 60 + rest / 1000;
    assert(secs == days * 86400 + of_day);
    assert(secs % 86400 == of_day) by (nonlinear_arith)
        requires
            secs == days * 86400 + of_day,
            0 <= of_day < 86400,
    ;
    assert(secs % 86400 / 3600 == hours);
    assert(secs % 3600 == minutes * 60 + rest / 1000) by (nonlinear_arith)
        requires
            secs == days * 86400 + hours * 3600 + minutes * 60 + rest / 1000,
            0 <= minutes * 60 + rest / 1000 < 3600,
    ;
    assert(secs % 3600 / 60 == minutes);
    if millis < 8_210_266_876_800_000 {
        assert(time_shown(millis) =~= seq![
            (48 + hours / 10) as char,
            (48 + hours % 10) as char,
            ':',
            (48 + minutes / 10) as char,
            (48 + minutes % 10) as char,
        ]);
    }
}

} // verus!
