//! Capture date and time of a handover marker, with their literal forms
//! `YYYY-MM-DD` and `HH:MM:SS`.
use vstd::prelude::*;

use crate::error::{decoded, parse_error, DecodeError};
use crate::text::{
    chars_of, is_digit, lemma_parse_digits, lemma_parse_unsigned_shape, lemma_split_concat, lemma_split_no_sep,
    lemma_zero_padded, parse_unsigned, parse_unsigned_chars, push_char, push_zero_padded,
    split_chars, split_on, zero_padded,
};

verus! {

// ---------------------------------------------------------------------------
// Date
// ---------------------------------------------------------------------------

/// A calendar date as carried on the wire.
#[derive(Debug, Clone, Copy, PartialEq, Eq, Structural, Hash)]
pub struct Date {
    pub year: u16,
    pub month: u8,
    pub day: u8,
}

/// Gregorian leap-year rule.
pub open spec fn is_leap(year: int) -> bool {
    year % 400 == 0 || (year % 4 == 0 && year % 100 != 0)
}

/// Number of days of `month` in `year`; 0 for a month outside 1..=12.
pub open spec fn days_in_month(year: int, month: int) -> int {
    if month == 1 || month == 3 || month == 5 || month == 7 || month == 8 || month == 10
        || month == 12 {
        31
    } else if month == 4 || month == 6 || month == 9 || month == 11 {
        30
    } else if month == 2 {
        if is_leap(year) {
            29
        } else {
            28
        }
    } else {
        0
    }
}

impl Date {
    /// The date names a day of the calendar.
    pub open spec fn valid(self) -> bool {
        &&& 1 <= self.month <= 12
        &&& 1 <= self.day <= days_in_month(self.year as int, self.month as int)
    }

    pub fn new(year: u16, month: u8, day: u8) -> (date: Self)
        ensures
            date == (Date { year, month, day }),
    {
        Self { year, month, day }
    }

    pub fn is_valid(&self) -> (valid: bool)
        ensures
            valid == self.valid(),
    {
        let maximum_day: u8 = match self.month {
            1 | 3 | 5 | 7 | 8 | 10 | 12 => 31,
            4 | 6 | 9 | 11 => 30,
            2 => {
                if Self::is_leap_year(self.year) {
                    29
                } else {
                    28
                }
            },
            _ => return false,
        };
        1 <= self.day && self.day <= maximum_day
    }

    pub fn is_leap_year(year: u16) -> (leap: bool)
        ensures
            leap == is_leap(year as int),
    {
        year % 400 == 0 || (year % 4 == 0 && year % 100 != 0)
    }

    /// Decodes a `YYYY-MM-DD` literal.
    pub fn from_nota_literal(literal: &str) -> (res: Result<Self, DecodeError>)
        ensures
            decoded(res) == date_from_literal(literal@),
    {
        let chars = chars_of(literal);
        let parts = split_chars(&chars, '-');
        if parts.len() != 3 {
            return Err(parse_error("date literal must be YYYY-MM-DD: ", literal));
        }
        let year = match parse_unsigned_chars(&parts[0], 0xffff) {
            Some(v) => v as u16,
            None => return Err(parse_error("invalid date year: ", literal)),
        };
        let month = match parse_unsigned_chars(&parts[1], 0xff) {
            Some(v) => v as u8,
            None => return Err(parse_error("invalid date month: ", literal)),
        };
        let day = match parse_unsigned_chars(&parts[2], 0xff) {
            Some(v) => v as u8,
            None => return Err(parse_error("invalid date day: ", literal)),
        };
        let date = Self { year, month, day };
        if date.is_valid() {
            Ok(date)
        } else {
            Err(parse_error("invalid date literal: ", literal))
        }
    }

    /// Encodes the date as `YYYY-MM-DD`, each field zero-padded.
    pub fn to_nota(&self) -> (literal: String)
        ensures
            literal@ == date_literal(*self),
    {
        let mut literal = String::new();
        push_zero_padded(&mut literal, self.year as u32, 4);
        push_char(&mut literal, '-');
        push_zero_padded(&mut literal, self.month as u32, 2);
        push_char(&mut literal, '-');
        push_zero_padded(&mut literal, self.day as u32, 2);
        literal
    }
}

/// What decoding a date literal gives: the date, or the error message.
pub open spec fn date_from_literal(s: Seq<char>) -> Result<Date, Seq<char>> {
    let parts = split_on(s, '-');
    if parts.len() != 3 {
        Err("date literal must be YYYY-MM-DD: "@ + s)
    } else if parse_unsigned(parts[0], 0xffff) is None {
        Err("invalid date year: "@ + s)
    } else if parse_unsigned(parts[1], 0xff) is None {
        Err("invalid date month: "@ + s)
    } else if parse_unsigned(parts[2], 0xff) is None {
        Err("invalid date day: "@ + s)
    } else {
        let date = Date {
            year: parse_unsigned(parts[0], 0xffff).unwrap() as u16,
            month: parse_unsigned(parts[1], 0xff).unwrap() as u8,
            day: parse_unsigned(parts[2], 0xff).unwrap() as u8,
        };
        if date.valid() {
            Ok(date)
        } else {
            Err("invalid date literal: "@ + s)
        }
    }
}

/// The literal of a date: `{:04}-{:02}-{:02}`.
pub open spec fn date_literal(date: Date) -> Seq<char> {
    zero_padded(date.year as nat, 4) + seq!['-'] + zero_padded(date.month as nat, 2) + seq!['-']
        + zero_padded(date.day as nat, 2)
}

// ---------------------------------------------------------------------------
// Time
// ---------------------------------------------------------------------------

/// A time of day as carried on the wire.
#[derive(Debug, Clone, Copy, PartialEq, Eq, Structural, Hash)]
pub struct Time {
    pub hour: u8,
    pub minute: u8,
    pub second: u8,
}

impl Time {
    /// The time names a second of a day.
    pub open spec fn valid(self) -> bool {
        self.hour < 24 && self.minute < 60 && self.second < 60
    }

    pub fn new(hour: u8, minute: u8, second: u8) -> (time: Self)
        ensures
            time == (Time { hour, minute, second }),
    {
        Self { hour, minute, second }
    }

    pub fn is_valid(&self) -> (valid: bool)
        ensures
            valid == self.valid(),
    {
        self.hour < 24 && self.minute < 60 && self.second < 60
    }

    /// Decodes an `HH:MM:SS` literal.
    pub fn from_nota_literal(literal: &str) -> (res: Result<Self, DecodeError>)
        ensures
            decoded(res) == time_from_literal(literal@),
    {
        let chars = chars_of(literal);
        let parts = split_chars(&chars, ':');
        if parts.len() != 3 {
            return Err(parse_error("time literal must be HH:MM:SS: ", literal));
        }
        let hour = match parse_unsigned_chars(&parts[0], 0xff) {
            Some(v) => v as u8,
            None => return Err(parse_error("invalid time hour: ", literal)),
        };
        let minute = match parse_unsigned_chars(&parts[1], 0xff) {
            Some(v) => v as u8,
            None => return Err(parse_error("invalid time minute: ", literal)),
        };
        let second = match parse_unsigned_chars(&parts[2], 0xff) {
            Some(v) => v as u8,
            None => return Err(parse_error("invalid time second: ", literal)),
        };
        let time = Self { hour, minute, second };
        if time.is_valid() {
            Ok(time)
        } else {
            Err(parse_error("invalid time literal: ", literal))
        }
    }

    /// Encodes the time as `HH:MM:SS`, each field zero-padded.
    pub fn to_nota(&self) -> (literal: String)
        ensures
            literal@ == time_literal(*self),
    {
        let mut literal = String::new();
        push_zero_padded(&mut literal, self.hour as u32, 2);
        push_char(&mut literal, ':');
        push_zero_padded(&mut literal, self.minute as u32, 2);
        push_char(&mut literal, ':');
        push_zero_padded(&mut literal, self.second as u32, 2);
        literal
    }
}

/// What decoding a time literal gives: the time, or the error message.
pub open spec fn time_from_literal(s: Seq<char>) -> Result<Time, Seq<char>> {
    let parts = split_on(s, ':');
    if parts.len() != 3 {
        Err("time literal must be HH:MM:SS: "@ + s)
    } else if parse_unsigned(parts[0], 0xff) is None {
        Err("invalid time hour: "@ + s)
    } else if parse_unsigned(parts[1], 0xff) is None {
        Err("invalid time minute: "@ + s)
    } else if parse_unsigned(parts[2], 0xff) is None {
        Err("invalid time second: "@ + s)
    } else {
        let time = Time {
            hour: parse_unsigned(parts[0], 0xff).unwrap() as u8,
            minute: parse_unsigned(parts[1], 0xff).unwrap() as u8,
            second: parse_unsigned(parts[2], 0xff).unwrap() as u8,
        };
        if time.valid() {
            Ok(time)
        } else {
            Err("invalid time literal: "@ + s)
        }
    }
}

/// The literal of a time: `{:02}:{:02}:{:02}`.
pub open spec fn time_literal(time: Time) -> Seq<char> {
    zero_padded(time.hour as nat, 2) + seq![':'] + zero_padded(time.minute as nat, 2) + seq![':']
        + zero_padded(time.second as nat, 2)
}

// ---------------------------------------------------------------------------
// Laws
// ---------------------------------------------------------------------------

/// A digit string holds no separator and parses to its value.
proof fn lemma_padded_field(n: nat, width: nat, max: int, sep: char)
    requires
        n <= max,
        !is_digit(sep),
    ensures
        split_on(zero_padded(n, width), sep) == seq![zero_padded(n, width)],
        parse_unsigned(zero_padded(n, width), max) == Some(n as int),
{
    lemma_zero_padded(n, width);
    let p = zero_padded(n, width);
    assert forall|i: int| 0 <= i < p.len() implies p[i] != sep by {
        assert(is_digit(p[i]));
    }
    lemma_split_no_sep(p, sep);
    lemma_parse_digits(p, max);
}

/// The three fields of `a sep b sep c`, none of which holds `sep`.
proof fn lemma_split_three(a: Seq<char>, b: Seq<char>, c: Seq<char>, sep: char)
    requires
        split_on(a, sep) == seq![a],
        split_on(b, sep) == seq![b],
        split_on(c, sep) == seq![c],
    ensures
        split_on(a + seq![sep] + b + seq![sep] + c, sep) == seq![a, b, c],
{
    lemma_split_concat(a, sep, b);
    lemma_split_concat(a + seq![sep] + b, sep, c);
    assert(seq![a] + seq![b] + seq![c] =~= seq![a, b, c]);
}

/// Decoding the literal of a valid date gives that date back.
pub proof fn lemma_date_round_trip(date: Date)
    requires
        date.valid(),
    ensures
        date_from_literal(date_literal(date)) == Ok::<Date, Seq<char>>(date),
{
    lemma_padded_field(date.year as nat, 4, 0xffff, '-');
    lemma_padded_field(date.month as nat, 2, 0xff, '-');
    lemma_padded_field(date.day as nat, 2, 0xff, '-');
    lemma_split_three(
        zero_padded(date.year as nat, 4),
        zero_padded(date.month as nat, 2),
        zero_padded(date.day as nat, 2),
        '-',
    );
}

/// Every date that decodes is a valid calendar date.
pub proof fn lemma_decoded_date_valid(s: Seq<char>)
    ensures
        date_from_literal(s) matches Ok(date) ==> date.valid(),
{
}

/// Decoding the literal of a valid time gives that time back.
pub proof fn lemma_time_round_trip(time: Time)
    requires
        time.valid(),
    ensures
        time_from_literal(time_literal(time)) == Ok::<Time, Seq<char>>(time),
{
    lemma_padded_field(time.hour as nat, 2, 0xff, ':');
    lemma_padded_field(time.minute as nat, 2, 0xff, ':');
    lemma_padded_field(time.second as nat, 2, 0xff, ':');
    lemma_split_three(
        zero_padded(time.hour as nat, 2),
        zero_padded(time.minute as nat, 2),
        zero_padded(time.second as nat, 2),
        ':',
    );
}

/// Every time that decodes is a valid time of day.
pub proof fn lemma_decoded_time_valid(s: Seq<char>)
    ensures
        time_from_literal(s) matches Ok(time) ==> time.valid(),
{
}

/// The Gregorian leap-year rule, case by case: a year not divisible by 4 is
/// common; one divisible by 4 but not by 100 is leap; one divisible by 100
/// but not by 400 is common; one divisible by 400 is leap.
pub proof fn lemma_leap_year_rule(year: int)
    ensures
        year % 4 != 0 ==> !is_leap(year),
        year % 4 == 0 && year % 100 != 0 ==> is_leap(year),
        year % 100 == 0 && year % 400 != 0 ==> !is_leap(year),
        year % 400 == 0 ==> is_leap(year),
        1901 <= year <= 2099 ==> (is_leap(year) <==> year % 4 == 0),
        is_leap(year) == is_leap(year + 400),
{
}

/// Which dates are on the calendar: month 1 to 12, day at least 1; every
/// month has days 1 to 28; day 29 exists except in February of a common
/// year; day 30 in every month but February; day 31 in January, March, May,
/// July, August, October and December only.
pub proof fn lemma_calendar_days(date: Date)
    ensures
        date.valid() <==> {
            &&& 1 <= date.month <= 12
            &&& 1 <= date.day
            &&& {
                ||| date.day <= 28
                ||| date.day == 29 && (date.month != 2 || {
                    let y = date.year as int;
                    (y % 4 == 0 && y % 100 != 0) || y % 400 == 0
                })
                ||| date.day == 30 && date.month != 2
                ||| date.day == 31 && (date.month == 1 || date.month == 3 || date.month == 5
                    || date.month == 7 || date.month == 8 || date.month == 10 || date.month
                    == 12)
            }
        },
{
}

/// Every calendar day decodes from its literal, and the day after a month's
/// last day does not: decoding the literal of `date` succeeds exactly when
/// the date is on the calendar, and then gives `date` back.
pub proof fn lemma_date_literal_accepts_calendar_days(date: Date)
    ensures
        date_from_literal(date_literal(date)) is Ok <==> date.valid(),
        date.valid() ==> date_from_literal(date_literal(date)) == Ok::<Date, Seq<char>>(date),
{
    lemma_padded_field(date.year as nat, 4, 0xffff, '-');
    lemma_padded_field(date.month as nat, 2, 0xff, '-');
    lemma_padded_field(date.day as nat, 2, 0xff, '-');
    lemma_split_three(
        zero_padded(date.year as nat, 4),
        zero_padded(date.month as nat, 2),
        zero_padded(date.day as nat, 2),
        '-',
    );
}

/// Which times are of a day: hour 0 to 23, minute 0 to 59, second 0 to 59;
/// exactly those decode from their literal, and give the time back.
pub proof fn lemma_clock_times(time: Time)
    ensures
        time.valid() <==> time.hour <= 23 && time.minute <= 59 && time.second <= 59,
        time_from_literal(time_literal(time)) is Ok <==> (time.hour <= 23 && time.minute <= 59
            && time.second <= 59),
        time.hour <= 23 && time.minute <= 59 && time.second <= 59 ==> time_from_literal(
            time_literal(time),
        ) == Ok::<Time, Seq<char>>(time),
{
    lemma_padded_field(time.hour as nat, 2, 0xff, ':');
    lemma_padded_field(time.minute as nat, 2, 0xff, ':');
    lemma_padded_field(time.second as nat, 2, 0xff, ':');
    lemma_split_three(
        zero_padded(time.hour as nat, 2),
        zero_padded(time.minute as nat, 2),
        zero_padded(time.second as nat, 2),
        ':',
    );
}

/// For a literal of three `-`-free fields `year-month-day`, decoding
/// reports the first field that is not a number of its width, and otherwise
/// gives the date if it is on the calendar.
pub proof fn lemma_date_field_errors(year: Seq<char>, month: Seq<char>, day: Seq<char>)
    requires
        forall|i: int| 0 <= i < year.len() ==> year[i] != '-',
        forall|i: int| 0 <= i < month.len() ==> month[i] != '-',
        forall|i: int| 0 <= i < day.len() ==> day[i] != '-',
    ensures
        ({
            let s = year + seq!['-'] + month + seq!['-'] + day;
            &&& parse_unsigned(year, 0xffff) is None ==> date_from_literal(s) == Err::<
                Date,
                Seq<char>,
            >("invalid date year: "@ + s)
            &&& parse_unsigned(year, 0xffff) is Some && parse_unsigned(month, 0xff) is None
                ==> date_from_literal(s) == Err::<Date, Seq<char>>("invalid date month: "@ + s)
            &&& parse_unsigned(year, 0xffff) is Some && parse_unsigned(month, 0xff) is Some
                && parse_unsigned(day, 0xff) is None ==> date_from_literal(s) == Err::<
                Date,
                Seq<char>,
            >("invalid date day: "@ + s)
            &&& forall|y: int, m: int, d: int|
                parse_unsigned(year, 0xffff) == Some(y) && parse_unsigned(month, 0xff) == Some(m)
                    && parse_unsigned(day, 0xff) == Some(d) ==> date_from_literal(s) == (if (Date {
                    year: y as u16,
                    month: m as u8,
                    day: d as u8,
                }).valid() {
                    Ok::<Date, Seq<char>>(Date { year: y as u16, month: m as u8, day: d as u8 })
                } else {
                    Err::<Date, Seq<char>>("invalid date literal: "@ + s)
                })
        }),
{
    lemma_split_no_sep(year, '-');
    lemma_split_no_sep(month, '-');
    lemma_split_no_sep(day, '-');
    lemma_split_three(year, month, day, '-');
}

/// For a literal of three `:`-free fields `hour:minute:second`, decoding
/// reports the first field that is not a byte-sized number, and otherwise
/// gives the time if it is a time of day.
pub proof fn lemma_time_field_errors(hour: Seq<char>, minute: Seq<char>, second: Seq<char>)
    requires
        forall|i: int| 0 <= i < hour.len() ==> hour[i] != ':',
        forall|i: int| 0 <= i < minute.len() ==> minute[i] != ':',
        forall|i: int| 0 <= i < second.len() ==> second[i] != ':',
    ensures
        ({
            let s = hour + seq![':'] + minute + seq![':'] + second;
            &&& parse_unsigned(hour, 0xff) is None ==> time_from_literal(s) == Err::<
                Time,
                Seq<char>,
            >("invalid time hour: "@ + s)
            &&& parse_unsigned(hour, 0xff) is Some && parse_unsigned(minute, 0xff) is None
                ==> time_from_literal(s) == Err::<Time, Seq<char>>("invalid time minute: "@ + s)
            &&& parse_unsigned(hour, 0xff) is Some && parse_unsigned(minute, 0xff) is Some
                && parse_unsigned(second, 0xff) is None ==> time_from_literal(s) == Err::<
                Time,
                Seq<char>,
            >("invalid time second: "@ + s)
            &&& forall|h: int, m: int, sec: int|
                parse_unsigned(hour, 0xff) == Some(h) && parse_unsigned(minute, 0xff) == Some(m)
                    && parse_unsigned(second, 0xff) == Some(sec) ==> time_from_literal(s) == (
                if h <= 23 && m <= 59 && sec <= 59 {
                    Ok::<Time, Seq<char>>(Time { hour: h as u8, minute: m as u8, second: sec as u8 })
                } else {
                    Err::<Time, Seq<char>>("invalid time literal: "@ + s)
                })
        }),
{
    lemma_split_no_sep(hour, ':');
    lemma_split_no_sep(minute, ':');
    lemma_split_no_sep(second, ':');
    lemma_split_three(hour, minute, second, ':');
    assert forall|h: int, m: int, sec: int|
        parse_unsigned(hour, 0xff) == Some(h) && parse_unsigned(minute, 0xff) == Some(m)
            && parse_unsigned(second, 0xff) == Some(sec) implies 0 <= h <= 0xff && 0 <= m <= 0xff
        && 0 <= sec <= 0xff by {
        lemma_parse_unsigned_shape(hour, 0xff);
        lemma_parse_unsigned_shape(minute, 0xff);
        lemma_parse_unsigned_shape(second, 0xff);
    }
}

} // verus!
