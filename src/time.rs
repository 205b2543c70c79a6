//! The clock, and calendar rendering of Unix timestamps in UTC.
use vstd::prelude::*;
use crate::text::{decimal, digit_char, push_char, push_decimal};

verus! {

/// The last second of the year 9999: up to here a timestamp renders with a
/// four-digit year.
pub const MAX_TIMESTAMP: i64 = 253402300799;

/// The calendar date `(year, month, day)`, in UTC, of a Unix timestamp in seconds.
pub uninterp spec fn utc_date_of(secs: int) -> (int, int, int);

/// Relies on chrono's conversion of a `SystemTime` into `DateTime<Utc>`
/// (which panics outside its range) and on `Datelike::{year, month, day}`:
/// the date depends on the timestamp alone, the month ranges from 1 to 12
/// and the day from 1 to 31.
#[verifier::external_body]
fn utc_date(secs: u64) -> (r: (i32, u32, u32))
    requires
        secs <= MAX_TIMESTAMP,
    ensures
        (r.0 as int, r.1 as int, r.2 as int) == utc_date_of(secs as int),
        1 <= r.1 <= 12,
        1 <= r.2 <= 31,
{
    let at = std::time::UNIX_EPOCH + std::time::Duration::from_secs(secs);
    let dt: chrono::DateTime<chrono::Utc> = at.into();
    (chrono::Datelike::year(&dt), chrono::Datelike::month(&dt), chrono::Datelike::day(&dt))
}

/// A calendar date and time of day in UTC.
pub struct UtcDateTime {
    pub year: i32,
    pub month: u32,
    pub day: u32,
    pub hour: u32,
    pub minute: u32,
    pub second: u32,
}

impl UtcDateTime {
    /// Every field lies in its calendar range.
    pub open spec fn wf(&self) -> bool {
        &&& 1 <= self.month <= 12
        &&& 1 <= self.day <= 31
        &&& self.hour < 24
        &&& self.minute < 60
        &&& self.second < 60
    }

    /// Renders as `YYYY-MM-DD HH:MM:SS`.
    pub fn to_text(&self) -> (r: String)
        requires
            self.wf(),
        ensures
            r@ == date_time_text(
                self.year as int,
                self.month as nat,
                self.day as nat,
                self.hour as nat,
                self.minute as nat,
                self.second as nat,
            ),
    {
        let mut r = String::new();
        push_year(&mut r, self.year);
        push_char(&mut r, '-');
        push_two_digits(&mut r, self.month);
        push_char(&mut r, '-');
        push_two_digits(&mut r, self.day);
        push_char(&mut r, ' ');
        push_two_digits(&mut r, self.hour);
        push_char(&mut r, ':');
        push_two_digits(&mut r, self.minute);
        push_char(&mut r, ':');
        push_two_digits(&mut r, self.second);
        assert(r@ =~= date_time_text(
            self.year as int,
            self.month as nat,
            self.day as nat,
            self.hour as nat,
            self.minute as nat,
            self.second as nat,
        ));
        r
    }
}

/// `n < 100` as exactly two decimal digits.
pub open spec fn two_digits(n: nat) -> Seq<char> {
    seq![digit_char(n / 10), digit_char(n % 10)]
}

/// The digits of a year's magnitude: at least four, zero-padded.
pub open spec fn year_digits(n: nat) -> Seq<char> {
    if n < 10000 {
        seq![digit_char(n / 1000), digit_char(n / 100 % 10), digit_char(n / 10 % 10), digit_char(n % 10)]
    } else {
        decimal(n)
    }
}

/// A year as shown: four digits from 0 to 9999, otherwise with a sign.
pub open spec fn year_text(y: int) -> Seq<char> {
    if 0 <= y <= 9999 {
        year_digits(y as nat)
    } else if y > 9999 {
        seq!['+'] + year_digits(y as nat)
    } else {
        seq!['-'] + year_digits((-y) as nat)
    }
}

/// A date and time as shown: `YYYY-MM-DD HH:MM:SS`.
pub open spec fn date_time_text(y: int, mo: nat, d: nat, h: nat, mi: nat, s: nat) -> Seq<char> {
    year_text(y) + seq!['-'] + two_digits(mo) + seq!['-'] + two_digits(d) + seq![' ']
        + two_digits(h) + seq![':'] + two_digits(mi) + seq![':'] + two_digits(s)
}

fn push_two_digits(r: &mut String, n: u32)
    requires
        n < 100,
    ensures
        final(r)@ == old(r)@ + two_digits(n as nat),
{
    push_decimal(r, (n / 10) as u128);
    push_decimal(r, (n % 10) as u128);
    assert(final(r)@ =~= old(r)@ + two_digits(n as nat));
}

fn push_year(r: &mut String, y: i32)
    ensures
        final(r)@ == old(r)@ + year_text(y as int),
{
    let magnitude: u64 = if y < 0 { (0 - (y as i64)) as u64 } else { y as u64 };
    if y > 9999 {
        push_char(r, '+');
    } else if y < 0 {
        push_char(r, '-');
    }
    if magnitude < 10000 {
        push_decimal(r, (magnitude / 1000) as u128);
        push_decimal(r, (magnitude / 100 % 10) as u128);
        push_decimal(r, (magnitude / 10 % 10) as u128);
        push_decimal(r, (magnitude % 10) as u128);
    } else {
        push_decimal(r, magnitude as u128);
    }
    assert(final(r)@ =~= old(r)@ + year_text(y as int));
}

/// A timestamp as shown: its UTC date and time of day.
pub open spec fn timestamp_text(ts: nat) -> Seq<char> {
    let (y, mo, d) = utc_date_of(ts as int);
    let t = ts % 86400;
    date_time_text(y, mo as nat, d as nat, t / 3600, t % 3600 / 60, t % 60)
}

/// Renders a Unix timestamp in seconds as its UTC date and time,
/// `YYYY-MM-DD HH:MM:SS`.
pub fn pretty_timestamp(ts: i64) -> (r: String)
    requires
        0 <= ts <= MAX_TIMESTAMP,
    ensures
        r@ == timestamp_text(ts as nat),
{
    let secs = ts as u64;
    let (year, month, day) = utc_date(secs);
    let t = secs % 86400;
    let at = UtcDateTime {
        year,
        month,
        day,
        hour: (t / 3600) as u32,
        minute: (t % 3600 / 60) as u32,
        second: (t % 60) as u32,
    };
    at.to_text()
}

/// Relies on `SystemTime::now` and `SystemTime::duration_since(UNIX_EPOCH)`:
/// whole seconds after the epoch, or, for a clock set before it, whole
/// seconds before it as the error.
#[verifier::external_body]
fn clock_reading() -> (r: Result<u64, u64>) {
    match std::time::SystemTime::now().duration_since(std::time::UNIX_EPOCH) {
        Ok(d) => Ok(d.as_secs()),
        Err(e) => Err(e.duration().as_secs()),
    }
}

/// Seconds since the epoch as a signed count, from a clock reading: `Ok`
/// holds seconds after the epoch, `Err` seconds before it. Readings beyond
/// the range of `i64` saturate.
pub fn epoch_seconds(reading: Result<u64, u64>) -> (r: i64)
    ensures
        reading matches Ok(s) ==> r == (if s > i64::MAX { i64::MAX as int } else { s as int }),
        reading matches Err(s) ==> r == (if s > i64::MAX { -i64::MAX } else { -(s as int) }),
{
    match reading {
        Ok(s) => if s > i64::MAX as u64 { i64::MAX } else { s as i64 },
        Err(s) => if s > i64::MAX as u64 { -i64::MAX } else { -(s as i64) },
    }
}

/// The current time in seconds since the Unix epoch (negative for a clock
/// set before it).
pub fn now() -> (r: i64)
    ensures
        r > i64::MIN,
{
    epoch_seconds(clock_reading())
}

} // verus!
