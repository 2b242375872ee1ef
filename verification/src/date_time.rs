//! The time and date as they are inserted into a text.

use crate::encoding::{decode_utf16_units, encode_utf16_units, utf16_text, utf16_units};
use crate::text::{digit_char, owned};
use vstd::prelude::*;

verus! {

/// A moment of the local clock, as far as it is written out.
#[derive(Clone, Copy, Debug, Eq, PartialEq, Structural)]
pub struct LocalDateTime {
    pub year: i32,
    pub month: u8,
    pub day: u8,
    pub hour: u8,
    pub minute: u8,
}

pub open spec fn is_leap_year(year: int) -> bool {
    year % 4 == 0 && (year % 100 != 0 || year % 400 == 0)
}

pub open spec fn days_in_month(year: int, month: int) -> int {
    if month == 2 {
        if is_leap_year(year) {
            29
        } else {
            28
        }
    } else if month == 4 || month == 6 || month == 9 || month == 11 {
        30
    } else {
        31
    }
}

/// A date and time that exist, in a year of at most four digits.
pub open spec fn is_moment(now: LocalDateTime) -> bool {
    &&& -9999 <= now.year <= 9999
    &&& 1 <= now.month <= 12
    &&& 1 <= now.day <= days_in_month(now.year as int, now.month as int)
    &&& now.hour < 24
    &&& now.minute < 60
}

pub open spec fn two_digits(n: int) -> Seq<char> {
    seq![digit_char(n / 10 % 10), digit_char(n % 10)]
}

pub open spec fn year_digits(year: int) -> Seq<char> {
    if year < 0 {
        seq!['-'] + two_digits(-year / 100) + two_digits(-year)
    } else {
        two_digits(year / 100) + two_digits(year)
    }
}

/// Hour and minute, then month, day and year.
pub open spec fn time_date_text(now: LocalDateTime) -> Seq<char> {
    two_digits(now.hour as int) + seq![':'] + two_digits(now.minute as int) + seq![' ']
        + two_digits(now.month as int) + seq!['/'] + two_digits(now.day as int) + seq!['/']
        + year_digits(now.year as int)
}

/// Formats a date and time.
///
/// Trusted: `time::OffsetDateTime::format` with the description
/// `[hour]:[minute] [month]/[day]/[year]` writes every number with leading
/// zeros, the year with four digits and a sign where it is negative. A moment
/// that does not exist is no `OffsetDateTime`, and gives no text.
#[verifier::external_body]
fn format_date_time(now: LocalDateTime) -> (text: Option<String>)
    requires
        -9999 <= now.year <= 9999,
    ensures
        text is Some <==> is_moment(now),
        text matches Some(text) ==> text@ == time_date_text(now),
{
    let month = time::Month::try_from(now.month).ok()?;
    let date = time::Date::from_calendar_date(now.year, month, now.day).ok()?;
    let clock = time::Time::from_hms(now.hour, now.minute, 0).ok()?;
    let description = "[hour]:[minute] [month]/[day]/[year]";
    let format = time::format_description::parse_borrowed::<1>(description).ok()?;
    time::OffsetDateTime::new_utc(date, clock).format(&format).ok()
}

/// The text for a moment, or a stand-in where it cannot be formatted.
pub open spec fn fallback_text(now: LocalDateTime) -> Seq<char> {
    if is_moment(now) {
        time_date_text(now)
    } else {
        "00:00 1/1/1970"@
    }
}

pub fn fallback_time_date(now: LocalDateTime) -> (text: String)
    ensures
        text@ == fallback_text(now),
{
    if now.year < -9999 || now.year > 9999 {
        return owned("00:00 1/1/1970");
    }
    match format_date_time(now) {
        Some(text) => text,
        None => owned("00:00 1/1/1970"),
    }
}

/// The text to insert for a moment.
pub open spec fn inserted_text(system_text: Option<Seq<char>>, now: LocalDateTime) -> Seq<char> {
    match system_text {
        Some(text) => text,
        None => fallback_text(now),
    }
}

/// The text to insert: the one that the system's own formats give, if there is
/// one, else the fallback.
pub fn time_date_for_insert(system_text: Option<String>, now: LocalDateTime) -> (text: String)
    ensures
        text@ == inserted_text(crate::document::opt_text(system_text), now),
{
    match system_text {
        Some(text) => text,
        None => fallback_time_date(now),
    }
}

/// The text in a buffer of code units of which `written` were filled, the last
/// one with a zero.
pub fn utf16_output(buffer: &Vec<u16>, written: i32) -> (text: Option<String>)
    requires
        written - 1 <= buffer@.len(),
    ensures
        text is Some <==> written > 1 && utf16_text(buffer@.take(written - 1)) is Some,
        text matches Some(text) ==> Some(text@) == utf16_text(buffer@.take(written - 1)),
{
    if written <= 1 {
        return None;
    }
    let len: usize = (written - 1) as usize;
    let mut units: Vec<u16> = Vec::new();
    let mut i: usize = 0;
    while i < len
        invariant
            i <= len <= buffer@.len(),
            units@ == buffer@.take(i as int),
        decreases len - i,
    {
        units.push(buffer[i]);
        i += 1;
        assert(units@ =~= buffer@.take(i as int));
    }
    decode_utf16_units(&units)
}

/// The code units of `text`, closed by a zero.
pub fn wide_null(text: &str) -> (units: Vec<u16>)
    ensures
        units@ == utf16_units(text@).push(0),
{
    let mut units = encode_utf16_units(text);
    units.push(0);
    units
}

} // verus!
