//! Event timestamps and the fixed `YYYY-MM-DDTHH:MM` form format.
//!
//! Event metadata arrives from a form with its date in a single fixed
//! format; anything else is a validation failure naming the date field.

use vstd::prelude::*;

use crate::error::{FormField, ValidationReason, VentError};

verus! {

/// A calendar timestamp with minute precision, as events are scheduled.
#[derive(Clone, Copy, Debug, PartialEq, Eq, Structural)]
pub struct EventDate {
    pub year: u16,
    pub month: u8,
    pub day: u8,
    pub hour: u8,
    pub minute: u8,
}

/// Whether `year` is a leap year in the Gregorian calendar.
pub open spec fn spec_is_leap_year(year: int) -> bool {
    year % 4 == 0 && (year % 100 != 0 || year % 400 == 0)
}

/// How many days the given month of the given year has.
pub open spec fn spec_days_in_month(year: int, month: int) -> int {
    if month == 2 {
        if spec_is_leap_year(year) {
            29
        } else {
            28
        }
    } else if month == 4 || month == 6 || month == 9 || month == 11 {
        30
    } else {
        31
    }
}

/// A date is valid when every component lies in its calendar range.
pub open spec fn date_valid(year: int, month: int, day: int, hour: int, minute: int) -> bool {
    &&& 1 <= month <= 12
    &&& 1 <= day <= spec_days_in_month(year, month)
    &&& 0 <= hour <= 23
    &&& 0 <= minute <= 59
}

impl EventDate {
    /// A well-formed timestamp has all components in range; the parser only
    /// produces such values and the store only holds them.
    pub open spec fn wf(self) -> bool {
        date_valid(self.year as int, self.month as int, self.day as int, self.hour as int, self.minute as int)
    }

    /// The timestamp as a single minute count on an idealized calendar of
    /// 31-day months, used only to order timestamps.
    pub open spec fn spec_key(self) -> int {
        (((self.year as int * 12 + self.month as int) * 31 + self.day as int) * 24 + self.hour as int) * 60
            + self.minute as int
    }

    /// Whether `self` is scheduled no later than `other`.
    pub open spec fn spec_le(self, other: EventDate) -> bool {
        self.spec_key() <= other.spec_key()
    }

    /// Compares two timestamps chronologically.
    pub fn le(&self, other: &EventDate) -> (r: bool)
        ensures
            r == self.spec_le(*other),
    {
        let a: u64 = (((self.year as u64 * 12 + self.month as u64) * 31 + self.day as u64) * 24
            + self.hour as u64) * 60 + self.minute as u64;
        let b: u64 = (((other.year as u64 * 12 + other.month as u64) * 31 + other.day as u64) * 24
            + other.hour as u64) * 60 + other.minute as u64;
        a <= b
    }
}

/// Whether `c` is a decimal digit.
pub open spec fn is_digit(c: char) -> bool {
    ('0' as int) <= (c as int) && (c as int) <= ('9' as int)
}

/// The numeric value of a decimal digit.
pub open spec fn digit_val(c: char) -> int {
    c as int - '0' as int
}

/// The value of the two digits starting at `i`.
pub open spec fn num2(s: Seq<char>, i: int) -> int {
    digit_val(s[i]) * 10 + digit_val(s[i + 1])
}

/// The value of the four digits starting at `i`.
pub open spec fn num4(s: Seq<char>, i: int) -> int {
    ((digit_val(s[i]) * 10 + digit_val(s[i + 1])) * 10 + digit_val(s[i + 2])) * 10
        + digit_val(s[i + 3])
}

/// Whether `s` has the shape `YYYY-MM-DDTHH:MM`: sixteen characters, digits
/// in the numeric positions and the fixed separators between them.
pub open spec fn date_text_wf(s: Seq<char>) -> bool {
    &&& s.len() == 16
    &&& is_digit(s[0]) && is_digit(s[1]) && is_digit(s[2]) && is_digit(s[3])
    &&& s[4] == '-'
    &&& is_digit(s[5]) && is_digit(s[6])
    &&& s[7] == '-'
    &&& is_digit(s[8]) && is_digit(s[9])
    &&& s[10] == 'T'
    &&& is_digit(s[11]) && is_digit(s[12])
    &&& s[13] == ':'
    &&& is_digit(s[14]) && is_digit(s[15])
}

/// What parsing yields: the timestamp when the text has the fixed shape and
/// names a real calendar date, and nothing otherwise.
pub open spec fn spec_parse_event_date(s: Seq<char>) -> Option<EventDate> {
    if date_text_wf(s) && date_valid(num4(s, 0), num2(s, 5), num2(s, 8), num2(s, 11), num2(s, 14)) {
        Some(EventDate {
            year: num4(s, 0) as u16,
            month: num2(s, 5) as u8,
            day: num2(s, 8) as u8,
            hour: num2(s, 11) as u8,
            minute: num2(s, 14) as u8,
        })
    } else {
        None
    }
}

/// The error every malformed date reports.
pub open spec fn date_error() -> VentError {
    VentError::Validation { field: FormField::Date, reason: ValidationReason::BadDateFormat }
}

/// Reads one digit at position `i`.
fn read_digit(s: &str, i: usize) -> (r: Option<u16>)
    requires
        i < s@.len(),
    ensures
        match r {
            Some(v) => is_digit(s@[i as int]) && v == digit_val(s@[i as int]),
            None => !is_digit(s@[i as int]),
        },
{
    let c = s.get_char(i);
    let v = c as u32;
    if ('0' as u32) <= v && v <= ('9' as u32) {
        Some((v - ('0' as u32)) as u16)
    } else {
        None
    }
}

/// Checks that position `i` holds exactly `expected`.
fn expect_char(s: &str, i: usize, expected: char) -> (r: bool)
    requires
        i < s@.len(),
    ensures
        r == (s@[i as int] == expected),
{
    s.get_char(i) == expected
}

/// Parses event-form date text in the fixed `YYYY-MM-DDTHH:MM` format.
///
/// Returns the timestamp exactly when the text has the fixed shape and names
/// a real calendar date (leap years included); any other text fails with a
/// validation error naming the date field.
pub fn parse_event_date(s: &str) -> (r: Result<EventDate, VentError>)
    ensures
        match r {
            Ok(d) => spec_parse_event_date(s@) == Some(d) && d.wf(),
            Err(e) => spec_parse_event_date(s@) is None && e == date_error(),
        },
{
    if s.unicode_len() != 16 {
        return Err(VentError::Validation {
            field: FormField::Date,
            reason: ValidationReason::BadDateFormat,
        });
    }
    let d0 = read_digit(s, 0);
    let d1 = read_digit(s, 1);
    let d2 = read_digit(s, 2);
    let d3 = read_digit(s, 3);
    let sep0 = expect_char(s, 4, '-');
    let d5 = read_digit(s, 5);
    let d6 = read_digit(s, 6);
    let sep1 = expect_char(s, 7, '-');
    let d8 = read_digit(s, 8);
    let d9 = read_digit(s, 9);
    let sep2 = expect_char(s, 10, 'T');
    let d11 = read_digit(s, 11);
    let d12 = read_digit(s, 12);
    let sep3 = expect_char(s, 13, ':');
    let d14 = read_digit(s, 14);
    let d15 = read_digit(s, 15);
    match (d0, d1, d2, d3, d5, d6, d8, d9, d11, d12, d14, d15) {
        (
            Some(y0),
            Some(y1),
            Some(y2),
            Some(y3),
            Some(mo0),
            Some(mo1),
            Some(da0),
            Some(da1),
            Some(h0),
            Some(h1),
            Some(mi0),
            Some(mi1),
        ) => {
            if !(sep0 && sep1 && sep2 && sep3) {
                return Err(VentError::Validation {
                    field: FormField::Date,
                    reason: ValidationReason::BadDateFormat,
                });
            }
            let year: u16 = ((y0 * 10 + y1) * 10 + y2) * 10 + y3;
            let month: u8 = (mo0 * 10 + mo1) as u8;
            let day: u8 = (da0 * 10 + da1) as u8;
            let hour: u8 = (h0 * 10 + h1) as u8;
            let minute: u8 = (mi0 * 10 + mi1) as u8;
            if month < 1 || month > 12 {
                return Err(VentError::Validation {
                    field: FormField::Date,
                    reason: ValidationReason::BadDateFormat,
                });
            }
            let max_day = days_in_month(year, month);
            if day < 1 || day > max_day {
                return Err(VentError::Validation {
                    field: FormField::Date,
                    reason: ValidationReason::BadDateFormat,
                });
            }
            if hour > 23 || minute > 59 {
                return Err(VentError::Validation {
                    field: FormField::Date,
                    reason: ValidationReason::BadDateFormat,
                });
            }
            Ok(EventDate { year, month, day, hour, minute })
        },
        _ => Err(VentError::Validation {
            field: FormField::Date,
            reason: ValidationReason::BadDateFormat,
        }),
    }
}

/// How many days the given month has, leap years included.
pub fn days_in_month(year: u16, month: u8) -> (r: u8)
    requires
        1 <= month <= 12,
    ensures
        r == spec_days_in_month(year as int, month as int),
{
    if month == 2 {
        if year % 4 == 0 && (year % 100 != 0 || year % 400 == 0) {
            29
        } else {
            28
        }
    } else if month == 4 || month == 6 || month == 9 || month == 11 {
        30
    } else {
        31
    }
}

} // verus!
