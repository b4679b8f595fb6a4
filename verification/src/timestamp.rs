//! Wall-clock timestamps at second precision, the time component of every
//! record name. A timestamp is kept as plain calendar fields so the codec
//! and the ordering of the listing can be reasoned about directly; chrono
//! supplies only the current time and the local-zone check.

use crate::text::{push_char, push_four_digits, push_two_digits, two_digits};
use vstd::prelude::*;

verus! {

/// A local calendar date and time, at second precision.
#[derive(Clone, Copy, PartialEq, Eq, Structural, Debug)]
pub struct Timestamp {
    pub year: u16,
    pub month: u8,
    pub day: u8,
    pub hour: u8,
    pub minute: u8,
    pub second: u8,
}

pub open spec fn is_leap_year(y: int) -> bool {
    (y % 4 == 0 && y % 100 != 0) || y % 400 == 0
}

pub open spec fn days_in_month(y: int, m: int) -> int {
    if m == 2 {
        if is_leap_year(y) {
            29
        } else {
            28
        }
    } else if m == 4 || m == 6 || m == 9 || m == 11 {
        30
    } else {
        31
    }
}

impl Timestamp {
    /// A well-formed timestamp: a real proleptic-Gregorian date whose year
    /// fits in four digits, with in-range time fields.
    pub open spec fn wf(self) -> bool {
        &&& 1 <= self.year <= 9999
        &&& 1 <= self.month <= 12
        &&& 1 <= self.day <= days_in_month(self.year as int, self.month as int)
        &&& self.hour <= 23
        &&& self.minute <= 59
        &&& self.second <= 59
    }

    /// A single integer that orders timestamps chronologically.
    pub open spec fn order_key(self) -> int {
        ((((self.year * 16 + self.month) * 32 + self.day) * 32 + self.hour) * 64 + self.minute)
            * 64 + self.second
    }

    /// Builds a timestamp from plain fields, accepting exactly the
    /// well-formed combinations.
    pub fn from_fields(year: u16, month: u8, day: u8, hour: u8, minute: u8, second: u8) -> (r:
        Option<Timestamp>)
        ensures
            match r {
                Some(t) => t.wf() && t == (Timestamp { year, month, day, hour, minute, second }),
                None => !(Timestamp { year, month, day, hour, minute, second }).wf(),
            },
    {
        if 1 <= year && year <= 9999 && 1 <= month && month <= 12 && 1 <= day && day
            <= days_in_month_exec(year, month) && hour <= 23 && minute <= 59 && second <= 59 {
            Some(Timestamp { year, month, day, hour, minute, second })
        } else {
            None
        }
    }

    /// The chronological order key, executably.
    pub fn key(&self) -> (k: u64)
        requires
            self.wf(),
        ensures
            k == self.order_key(),
    {
        ((((self.year as u64 * 16 + self.month as u64) * 32 + self.day as u64) * 32
            + self.hour as u64) * 64 + self.minute as u64) * 64 + self.second as u64
    }

    /// The date as `YYYY/MM/DD`.
    pub fn date_text(&self) -> (r: String)
        requires
            self.wf(),
        ensures
            r@ == spec_date_text(*self),
    {
        let mut s = String::new();
        push_four_digits(&mut s, self.year);
        push_char(&mut s, '/');
        push_two_digits(&mut s, self.month);
        push_char(&mut s, '/');
        push_two_digits(&mut s, self.day);
        assert(s@ =~= spec_date_text(*self));
        s
    }

    /// The time of day as `HH:MM:SS`.
    pub fn time_text(&self) -> (r: String)
        requires
            self.wf(),
        ensures
            r@ == spec_time_text(*self),
    {
        let mut s = String::new();
        push_two_digits(&mut s, self.hour);
        push_char(&mut s, ':');
        push_two_digits(&mut s, self.minute);
        push_char(&mut s, ':');
        push_two_digits(&mut s, self.second);
        assert(s@ =~= spec_time_text(*self));
        s
    }
}

/// `YYYY/MM/DD`.
pub open spec fn spec_date_text(t: Timestamp) -> Seq<char> {
    crate::text::four_digits(t.year as int) + seq!['/'] + two_digits(t.month as int) + seq!['/']
        + two_digits(t.day as int)
}

/// `HH:MM:SS`.
pub open spec fn spec_time_text(t: Timestamp) -> Seq<char> {
    two_digits(t.hour as int) + seq![':'] + two_digits(t.minute as int) + seq![':'] + two_digits(
        t.second as int,
    )
}

/// The chronological order agrees with the field-by-field order.
pub proof fn lemma_order_key_orders(a: Timestamp, b: Timestamp)
    requires
        a.wf(),
        b.wf(),
    ensures
        (a.order_key() == b.order_key()) == (a == b),
        (a.order_key() < b.order_key()) == (if a.year != b.year {
            a.year < b.year
        } else if a.month != b.month {
            a.month < b.month
        } else if a.day != b.day {
            a.day < b.day
        } else if a.hour != b.hour {
            a.hour < b.hour
        } else if a.minute != b.minute {
            a.minute < b.minute
        } else {
            a.second < b.second
        }),
{
}

pub fn days_in_month_exec(year: u16, month: u8) -> (d: u8)
    ensures
        d == days_in_month(year as int, month as int),
{
    if month == 2 {
        if (year % 4 == 0 && year % 100 != 0) || year % 400 == 0 {
            29
        } else {
            28
        }
    } else if month == 4 || month == 6 || month == 9 || month == 11 {
        30
    } else {
        31
    }
}

/// The current local time's calendar fields, as
/// `(year, month, day, hour, minute, second)`.
/// Relies on `chrono::Local::now` and the `Datelike`/`Timelike` accessors,
/// whose documentation fixes the ranges stated here.
#[verifier::external_body]
fn now_fields() -> (r: (i32, u32, u32, u32, u32, u32))
    ensures
        1 <= r.1 <= 12,
        1 <= r.2 <= 31,
        r.3 <= 23,
        r.4 <= 59,
        r.5 <= 59,
{
    let n = chrono::Local::now();
    (
        chrono::Datelike::year(&n),
        chrono::Datelike::month(&n),
        chrono::Datelike::day(&n),
        chrono::Timelike::hour(&n),
        chrono::Timelike::minute(&n),
        chrono::Timelike::second(&n),
    )
}

/// The current local time, when its fields form a well-formed timestamp
/// (a clock set outside the four-digit-year range is refused).
pub fn capture_now() -> (r: Option<Timestamp>)
    ensures
        match r {
            Some(t) => t.wf(),
            None => true,
        },
{
    let (y, mo, d, h, mi, s) = now_fields();
    if 1 <= y && y <= 9999 {
        Timestamp::from_fields(y as u16, mo as u8, d as u8, h as u8, mi as u8, s as u8)
    } else {
        None
    }
}

/// Whether the timestamp's wall-clock fields name exactly one instant in
/// this machine's local time zone (a spring-forward gap names none, a
/// fall-back overlap names two). Relies on chrono's
/// `TimeZone::from_local_datetime` for `Local`; the answer depends on the
/// machine's zone, so nothing further is promised of it.
#[verifier::external_body]
pub fn local_zone_single(t: &Timestamp) -> bool {
    let date = chrono::NaiveDate::from_ymd_opt(t.year as i32, t.month as u32, t.day as u32);
    let naive = date.and_then(|d| d.and_hms_opt(t.hour as u32, t.minute as u32, t.second as u32));
    match naive {
        Some(n) => matches!(
            chrono::TimeZone::from_local_datetime(&chrono::Local, &n),
            chrono::LocalResult::Single(_)
        ),
        None => false,
    }
}

} // verus!
