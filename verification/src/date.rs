//! Calendar dates and their wire codec. A date travels as the ten-character
//! text `YYYY-MM-DD`; in memory it is a plain year, month and day with the
//! usual calendar validity (month lengths, leap years).

use vstd::prelude::*;
use vstd::string::StrSliceExecFns;
use vstd::string::StringExecFns;
use crate::digits::digit_char;
use crate::digits::digit_val;
use crate::digits::is_digit_char;
use crate::digits::push_digit;

verus! {

/// A calendar date with no time-of-day component. Years are limited to the
/// range the four-digit wire format can carry.
#[derive(Clone, Copy, PartialEq, Eq, Structural, Debug)]
pub struct Date {
    pub year: i32,
    pub month: u8,
    pub day: u8,
}

/// The failure a malformed or impossible date text decodes to.
#[derive(Clone, Copy, PartialEq, Eq, Structural, Debug)]
pub enum DateError {
    InvalidFormat,
}

pub open spec fn is_leap_year(y: int) -> bool {
    (y % 4 == 0 && y % 100 != 0) || y % 400 == 0
}

pub open spec fn days_in_month(y: int, m: int) -> int {
    if m == 2 {
        if is_leap_year(y) {
            29
        } else {
            28
        }
    } else if m == 4 || m == 6 || m == 9 || m == 11 {
        30
    } else {
        31
    }
}

pub open spec fn valid_date(y: int, m: int, d: int) -> bool {
    0 <= y <= 9999 && 1 <= m <= 12 && 1 <= d <= days_in_month(y, m)
}

/// The canonical wire text of a date: four year digits, two month digits and
/// two day digits, zero padded, hyphen separated.
pub open spec fn date_str(d: Date) -> Seq<char> {
    let y = d.year as int;
    let m = d.month as int;
    let dd = d.day as int;
    seq![
        digit_char(y / 10 / 10 / 10),
        digit_char(y / 10 / 10 % 10),
        digit_char(y / 10 % 10),
        digit_char(y % 10),
        '-',
        digit_char(m / 10),
        digit_char(m % 10),
        '-',
        digit_char(dd / 10),
        digit_char(dd % 10),
    ]
}

/// What a candidate wire text denotes: `Some` exactly for a ten-character
/// digit-hyphen pattern naming a valid calendar date.
pub open spec fn parse_date(s: Seq<char>) -> Option<Date> {
    if s.len() == 10 && s[4] == '-' && s[7] == '-' && is_digit_char(s[0]) && is_digit_char(s[1])
        && is_digit_char(s[2]) && is_digit_char(s[3]) && is_digit_char(s[5]) && is_digit_char(s[6])
        && is_digit_char(s[8]) && is_digit_char(s[9]) {
        let y = digit_val(s[0]) * 1000 + digit_val(s[1]) * 100 + digit_val(s[2]) * 10 + digit_val(
            s[3],
        );
        let m = digit_val(s[5]) * 10 + digit_val(s[6]);
        let dd = digit_val(s[8]) * 10 + digit_val(s[9]);
        if valid_date(y, m, dd) {
            Some(Date { year: y as i32, month: m as u8, day: dd as u8 })
        } else {
            None
        }
    } else {
        None
    }
}

impl Date {
    pub open spec fn wf(&self) -> bool {
        valid_date(self.year as int, self.month as int, self.day as int)
    }

    /// Builds a date after checking calendar validity: `Some` exactly for a
    /// valid year, month and day.
    pub fn new(year: i32, month: u8, day: u8) -> (r: Option<Date>)
        ensures
            match r {
                Some(d) => valid_date(year as int, month as int, day as int) && d == (Date {
                    year,
                    month,
                    day,
                }),
                None => !valid_date(year as int, month as int, day as int),
            },
    {
        if year < 0 || year > 9999 || month < 1 || month > 12 {
            return None;
        }
        let limit = days_in_month_count(year, month);
        if day < 1 || day > limit {
            return None;
        }
        Some(Date { year, month, day })
    }

    /// Renders this date in the wire format.
    pub fn encode(&self) -> (r: String)
        requires
            self.wf(),
        ensures
            r@ == date_str(*self),
    {
        let mut out = String::new();
        let y: u32 = self.year as u32;
        let t1: u32 = y / 10;
        let t2: u32 = t1 / 10;
        let t3: u32 = t2 / 10;
        push_digit(t3 as u8, &mut out);
        push_digit((t2 % 10) as u8, &mut out);
        push_digit((t1 % 10) as u8, &mut out);
        push_digit((y % 10) as u8, &mut out);
        proof {
            reveal_strlit("-");
            assert("-"@ =~= seq!['-']);
        }
        out.append("-");
        let m: u32 = self.month as u32;
        push_digit((m / 10) as u8, &mut out);
        push_digit((m % 10) as u8, &mut out);
        out.append("-");
        let dd: u32 = self.day as u32;
        push_digit((dd / 10) as u8, &mut out);
        push_digit((dd % 10) as u8, &mut out);
        proof {
            assert(out@ =~= date_str(*self));
        }
        out
    }

    /// Reads a date from its wire text: the exact inverse of `encode` on
    /// valid dates, and a format failure on everything else.
    pub fn decode(s: &str) -> (r: Result<Date, DateError>)
        ensures
            match r {
                Ok(d) => parse_date(s@) == Some(d) && d.wf(),
                Err(e) => parse_date(s@) is None && e == DateError::InvalidFormat,
            },
    {
        if s.unicode_len() != 10 {
            return Err(DateError::InvalidFormat);
        }
        if s.get_char(4) != '-' || s.get_char(7) != '-' {
            return Err(DateError::InvalidFormat);
        }
        let d0 = match char_to_digit(s.get_char(0)) {
            Some(d) => d,
            None => {
                return Err(DateError::InvalidFormat);
            },
        };
        let d1 = match char_to_digit(s.get_char(1)) {
            Some(d) => d,
            None => {
                return Err(DateError::InvalidFormat);
            },
        };
        let d2 = match char_to_digit(s.get_char(2)) {
            Some(d) => d,
            None => {
                return Err(DateError::InvalidFormat);
            },
        };
        let d3 = match char_to_digit(s.get_char(3)) {
            Some(d) => d,
            None => {
                return Err(DateError::InvalidFormat);
            },
        };
        let d5 = match char_to_digit(s.get_char(5)) {
            Some(d) => d,
            None => {
                return Err(DateError::InvalidFormat);
            },
        };
        let d6 = match char_to_digit(s.get_char(6)) {
            Some(d) => d,
            None => {
                return Err(DateError::InvalidFormat);
            },
        };
        let d8 = match char_to_digit(s.get_char(8)) {
            Some(d) => d,
            None => {
                return Err(DateError::InvalidFormat);
            },
        };
        let d9 = match char_to_digit(s.get_char(9)) {
            Some(d) => d,
            None => {
                return Err(DateError::InvalidFormat);
            },
        };
        let y: u32 = (d0 as u32) * 1000 + (d1 as u32) * 100 + (d2 as u32) * 10 + (d3 as u32);
        let m: u8 = d5 * 10 + d6;
        let dd: u8 = d8 * 10 + d9;
        if m < 1 || m > 12 {
            return Err(DateError::InvalidFormat);
        }
        let limit = days_in_month_count(y as i32, m);
        if dd < 1 || dd > limit {
            return Err(DateError::InvalidFormat);
        }
        Ok(Date { year: y as i32, month: m, day: dd })
    }
}

/// The digit value of a character: `Some` exactly for `'0'` through `'9'`.
fn char_to_digit(c: char) -> (r: Option<u8>)
    ensures
        match r {
            Some(d) => is_digit_char(c) && d < 10 && d as int == digit_val(c),
            None => !is_digit_char(c),
        },
{
    match c {
        '0' => Some(0),
        '1' => Some(1),
        '2' => Some(2),
        '3' => Some(3),
        '4' => Some(4),
        '5' => Some(5),
        '6' => Some(6),
        '7' => Some(7),
        '8' => Some(8),
        '9' => Some(9),
        _ => None,
    }
}

/// The number of days of the given month, honouring leap years.
pub fn days_in_month_count(year: i32, month: u8) -> (r: u8)
    requires
        0 <= year,
        1 <= month <= 12,
    ensures
        r as int == days_in_month(year as int, month as int),
{
    if month == 2 {
        if (year % 4 == 0 && year % 100 != 0) || year % 400 == 0 {
            29
        } else {
            28
        }
    } else if month == 4 || month == 6 || month == 9 || month == 11 {
        30
    } else {
        31
    }
}

/// Every valid date survives the wire round trip: decoding the encoded text
/// gives back the same date.
pub proof fn lemma_date_round_trip(d: Date)
    requires
        d.wf(),
    ensures
        parse_date(date_str(d)) == Some(d),
{
    let s = date_str(d);
    let y = d.year as int;
    let m = d.month as int;
    let dd = d.day as int;
    lemma_digit_round_trip(y / 10 / 10 / 10);
    lemma_digit_round_trip(y / 10 / 10 % 10);
    lemma_digit_round_trip(y / 10 % 10);
    lemma_digit_round_trip(y % 10);
    lemma_digit_round_trip(m / 10);
    lemma_digit_round_trip(m % 10);
    lemma_digit_round_trip(dd / 10);
    lemma_digit_round_trip(dd % 10);
    assert(y == (y / 10 / 10 / 10) * 1000 + (y / 10 / 10 % 10) * 100 + (y / 10 % 10) * 10 + y
        % 10);
    assert(m == (m / 10) * 10 + m % 10);
    assert(dd == (dd / 10) * 10 + dd % 10);
    assert(parse_date(s) == Some(d));
}

proof fn lemma_digit_round_trip(x: int)
    requires
        0 <= x <= 9,
    ensures
        is_digit_char(digit_char(x)),
        digit_val(digit_char(x)) == x,
{
}

} // verus!
