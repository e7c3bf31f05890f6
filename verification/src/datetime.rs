//! Calendar timestamps: proleptic Gregorian dates from 1970 through 9999,
//! with an exact, bijective mapping to seconds since the Unix epoch.

use vstd::prelude::*;

use crate::error::Error;
use crate::tag::Tag;
use crate::writer::Encoder;

verus! {

/// A span since the Unix epoch: whole seconds plus nanoseconds.
#[derive(Copy, Clone, Debug, PartialEq, Eq, Structural)]
pub struct UnixDuration {
    /// Whole seconds.
    pub secs: u64,
    /// Nanoseconds past the last whole second, below one billion.
    pub nanos: u32,
}

/// A calendar timestamp in UTC: year 1970 through 9999, month, day, hour,
/// minute, second. Validity is the [`DateTime::wf`] predicate; the
/// constructors establish it and every consumer's contract is conditioned
/// on it.
#[derive(Copy, Clone, Debug, PartialEq, Eq, Structural)]
pub struct DateTime {
    /// Full year, 1970 through 9999.
    pub year: u16,
    /// Month of the year, 1 through 12.
    pub month: u8,
    /// Day of the month, 1 through the month's length.
    pub day: u8,
    /// Hour of the day, 0 through 23.
    pub hour: u8,
    /// Minute of the hour, 0 through 59.
    pub minute: u8,
    /// Second of the minute, 0 through 59.
    pub second: u8,
}

/// Gregorian leap-year rule.
pub open spec fn spec_is_leap_year(y: int) -> bool {
    (y % 4 == 0 && y % 100 != 0) || y % 400 == 0
}

/// Days in a calendar year.
pub open spec fn spec_days_in_year(y: int) -> int {
    if spec_is_leap_year(y) {
        366
    } else {
        365
    }
}

/// Days in a calendar month (1 through 12).
pub open spec fn spec_days_in_month(y: int, m: int) -> int {
    if m == 2 {
        if spec_is_leap_year(y) {
            29
        } else {
            28
        }
    } else if m == 4 || m == 6 || m == 9 || m == 11 {
        30
    } else {
        31
    }
}

/// Days from the Unix epoch to the start of year `y`.
pub open spec fn spec_days_before_year(y: int) -> int
    decreases y,
{
    if y <= 1970 {
        0
    } else {
        spec_days_before_year(y - 1) + spec_days_in_year(y - 1)
    }
}

/// Days from the start of year `y` to the start of month `m`.
pub open spec fn spec_days_before_month(y: int, m: int) -> int
    decreases m,
{
    if m <= 1 {
        0
    } else {
        spec_days_before_month(y, m - 1) + spec_days_in_month(y, m - 1)
    }
}

/// The months of a year sum to the year's length.
pub proof fn lemma_months_sum(y: int)
    ensures
        spec_days_before_month(y, 13) == spec_days_in_year(y),
{
    reveal_with_fuel(spec_days_before_month, 13);
}

/// Gregorian leap-year rule.
pub fn is_leap_year(year: u16) -> (r: bool)
    ensures
        r == spec_is_leap_year(year as int),
{
    (year % 4 == 0 && year % 100 != 0) || year % 400 == 0
}

/// Days in a calendar year.
pub fn days_in_year(year: u16) -> (r: u16)
    ensures
        r == spec_days_in_year(year as int),
{
    if is_leap_year(year) {
        366
    } else {
        365
    }
}

/// Days in a calendar month.
pub fn days_in_month(year: u16, month: u8) -> (r: u8)
    ensures
        r == spec_days_in_month(year as int, month as int),
{
    if month == 2 {
        if is_leap_year(year) {
            29
        } else {
            28
        }
    } else if month == 4 || month == 6 || month == 9 || month == 11 {
        30
    } else {
        31
    }
}

impl DateTime {
    /// Calendar validity: each field within its range, the day within the
    /// month's actual length.
    pub open spec fn wf(self) -> bool {
        &&& 1970 <= self.year <= 9999
        &&& 1 <= self.month <= 12
        &&& 1 <= self.day <= spec_days_in_month(self.year as int, self.month as int)
        &&& self.hour < 24
        &&& self.minute < 60
        &&& self.second < 60
    }

    /// Days since the Unix epoch.
    pub open spec fn spec_unix_days(self) -> int {
        spec_days_before_year(self.year as int) + spec_days_before_month(
            self.year as int,
            self.month as int,
        ) + self.day - 1
    }

    /// Seconds since the Unix epoch.
    pub open spec fn spec_unix_secs(self) -> int {
        self.spec_unix_days() * 86400 + self.hour * 3600 + self.minute * 60 + self.second
    }

    /// Calendar validity, as a runtime test.
    pub fn is_valid(&self) -> (r: bool)
        ensures
            r == self.wf(),
    {
        1970 <= self.year && self.year <= 9999 && 1 <= self.month && self.month <= 12 && 1
            <= self.day && self.day <= days_in_month(self.year, self.month) && self.hour < 24
            && self.minute < 60 && self.second < 60
    }

    /// The sole arbiter of calendar validity: builds a timestamp from its
    /// fields, rejecting every impossible date or time as `DateTime`.
    pub fn new(year: u16, month: u8, day: u8, hour: u8, minute: u8, second: u8) -> (r: Result<
        DateTime,
        Error,
    >)
        ensures
            ({
                let dt = DateTime { year, month, day, hour, minute, second };
                if dt.wf() {
                    r == Ok::<DateTime, Error>(dt)
                } else {
                    r == Err::<DateTime, Error>(Error::DateTime)
                }
            }),
    {
        if 1970 <= year && year <= 9999 && 1 <= month && month <= 12 && 1 <= day && day
            <= days_in_month(year, month) && hour < 24 && minute < 60 && second < 60 {
            Ok(DateTime { year, month, day, hour, minute, second })
        } else {
            Err(Error::DateTime)
        }
    }

    /// The span from the Unix epoch to this timestamp, always a whole number
    /// of seconds.
    pub fn unix_duration(&self) -> (r: UnixDuration)
        requires
            self.wf(),
        ensures
            r.secs == self.spec_unix_secs(),
            r.nanos == 0,
    {
        let mut days: u64 = 0;
        let mut y: u16 = 1970;
        while y < self.year
            invariant
                1970 <= y <= self.year,
                self.year <= 9999,
                days == spec_days_before_year(y as int),
                days <= 366 * (y - 1970),
            decreases self.year - y,
        {
            days = days + days_in_year(y) as u64;
            y = y + 1;
        }
        let mut m: u8 = 1;
        while m < self.month
            invariant
                1 <= m <= self.month,
                self.month <= 12,
                self.wf(),
                days == spec_days_before_year(self.year as int) + spec_days_before_month(
                    self.year as int,
                    m as int,
                ),
                days <= 366 * 8030 + 31 * (m - 1),
            decreases self.month - m,
        {
            days = days + days_in_month(self.year, m) as u64;
            m = m + 1;
        }
        let days_total: u64 = days + (self.day - 1) as u64;
        let secs: u64 = days_total * 86400 + (self.hour as u64) * 3600 + (self.minute as u64) * 60
            + (self.second as u64);
        UnixDuration { secs, nanos: 0 }
    }

    /// The timestamp a span since the Unix epoch denotes. Fails with
    /// `DateTime` when the span has fractional seconds or reaches past the
    /// end of year 9999; succeeds on every other input, with a timestamp
    /// that maps back to exactly the given seconds.
    pub fn from_unix_duration(d: UnixDuration) -> (r: Result<DateTime, Error>)
        ensures
            match r {
                Ok(dt) => dt.wf() && dt.spec_unix_secs() == d.secs && d.nanos == 0,
                Err(e) => e == Error::DateTime && (d.nanos != 0 || d.secs / 86400
                    >= spec_days_before_year(10000)),
            },
            d.nanos == 0 && d.secs / 86400 < spec_days_before_year(10000) ==> r is Ok,
    {
        if d.nanos != 0 {
            return Err(Error::DateTime);
        }
        let total_days: u64 = d.secs / 86400;
        let rem: u64 = d.secs % 86400;
        let mut year: u16 = 1970;
        let mut days: u64 = total_days;
        let mut diy: u16 = days_in_year(year);
        while days >= diy as u64
            invariant
                1970 <= year <= 9999,
                d.nanos == 0,
                total_days == d.secs / 86400,
                diy == spec_days_in_year(year as int),
                spec_days_before_year(year as int) + days == total_days,
            decreases days,
        {
            if year == 9999 {
                proof {
                    assert(spec_days_before_year(10000) == spec_days_before_year(9999)
                        + spec_days_in_year(9999));
                }
                return Err(Error::DateTime);
            }
            days = days - diy as u64;
            year = year + 1;
            diy = days_in_year(year);
        }
        let mut month: u8 = 1;
        let mut dim: u8 = days_in_month(year, month);
        while days >= dim as u64
            invariant
                1 <= month <= 12,
                1970 <= year <= 9999,
                dim == spec_days_in_month(year as int, month as int),
                spec_days_before_year(year as int) + spec_days_before_month(
                    year as int,
                    month as int,
                ) + days == total_days,
                spec_days_before_month(year as int, month as int) + days < spec_days_in_year(
                    year as int,
                ),
            decreases days,
        {
            proof {
                if month == 12 {
                    lemma_months_sum(year as int);
                }
            }
            days = days - dim as u64;
            month = month + 1;
            dim = days_in_month(year, month);
        }
        let day: u8 = (days + 1) as u8;
        let hour: u8 = (rem / 3600) as u8;
        let minute: u8 = ((rem % 3600) / 60) as u8;
        let second: u8 = ((rem % 3600) % 60) as u8;
        let dt = DateTime { year, month, day, hour, minute, second };
        proof {
            assert(rem == 3600 * (rem / 3600) + rem % 3600);
            assert(rem % 3600 == 60 * ((rem % 3600) / 60) + (rem % 3600) % 60);
            assert(d.secs == 86400 * total_days + rem);
        }
        Ok(dt)
    }
}

/// ASCII decimal digits.
pub open spec fn spec_is_digit(b: u8) -> bool {
    0x30 <= b <= 0x39
}

/// The number a pair of ASCII decimal digits denotes.
pub open spec fn spec_decimal_value(hi: u8, lo: u8) -> int {
    (hi - 0x30) * 10 + (lo - 0x30)
}

/// The high ASCII digit of a two-digit number.
pub open spec fn spec_dec_hi(v: int) -> u8 {
    (0x30 + v / 10) as u8
}

/// The low ASCII digit of a two-digit number.
pub open spec fn spec_dec_lo(v: int) -> u8 {
    (0x30 + v % 10) as u8
}

/// Decode a pair of ASCII decimal digits; any non-digit byte is a value
/// error attributed to the given tag.
pub fn decode_decimal(tag: Tag, hi: u8, lo: u8) -> (r: Result<u8, Error>)
    ensures
        spec_is_digit(hi) && spec_is_digit(lo) ==> r == Ok::<u8, Error>(
            spec_decimal_value(hi, lo) as u8,
        ),
        !(spec_is_digit(hi) && spec_is_digit(lo)) ==> r == Err::<u8, Error>(Error::Value { tag }),
{
    if 0x30 <= hi && hi <= 0x39 && 0x30 <= lo && lo <= 0x39 {
        Ok((hi - 0x30) * 10 + (lo - 0x30))
    } else {
        Err(tag.value_error())
    }
}

/// Encode a number below 100 as a pair of ASCII decimal digits; larger
/// values are a value error attributed to the given tag.
pub fn encode_decimal(encoder: &mut Encoder, tag: Tag, value: u8) -> (r: Result<(), Error>)
    ensures
        final(encoder).capacity() == old(encoder).capacity(),
        r is Ok ==> value < 100 && final(encoder).written() == old(encoder).written().push(
            spec_dec_hi(value as int),
        ).push(spec_dec_lo(value as int)),
        value < 100 && old(encoder).written().len() + 2 <= old(encoder).capacity() ==> r is Ok,
        value >= 100 ==> r == Err::<(), Error>(Error::Value { tag }),
{
    if value >= 100 {
        return Err(tag.value_error());
    }
    match encoder.byte(0x30 + value / 10) {
        Ok(()) => {},
        Err(e) => { return Err(e) },
    }
    encoder.byte(0x30 + value % 10)
}

} // verus!

verus! {

/// Months never shrink the day count: days-before-month is monotone.
proof fn lemma_days_before_month_mono(y: int, m1: int, m2: int)
    requires
        m1 <= m2,
    ensures
        spec_days_before_month(y, m1) <= spec_days_before_month(y, m2),
    decreases m2 - m1,
{
    if m1 < m2 {
        lemma_days_before_month_mono(y, m1, m2 - 1);
    }
}

/// Years never shrink the day count: days-before-year is monotone.
proof fn lemma_days_before_year_mono(y1: int, y2: int)
    requires
        y1 <= y2,
    ensures
        spec_days_before_year(y1) <= spec_days_before_year(y2),
    decreases y2 - y1,
{
    if y1 < y2 {
        lemma_days_before_year_mono(y1, y2 - 1);
    }
}

/// A valid date's day-of-year index stays below the year's length.
proof fn lemma_day_of_year_bound(dt: DateTime)
    requires
        dt.wf(),
    ensures
        0 <= spec_days_before_month(dt.year as int, dt.month as int) + dt.day - 1
            < spec_days_in_year(dt.year as int),
        spec_days_before_month(dt.year as int, dt.month as int) >= 0,
    decreases 0int,
{
    let y = dt.year as int;
    let m = dt.month as int;
    lemma_days_before_month_mono(y, 1, m);
    lemma_days_before_month_mono(y, m + 1, 13);
    lemma_months_sum(y);
    assert(spec_days_before_month(y, m + 1) == spec_days_before_month(y, m) + spec_days_in_month(
        y,
        m,
    ));
}

/// The Unix-seconds mapping is injective on valid timestamps: two valid
/// timestamps denoting the same second are the same timestamp. Together with
/// the contracts of [`DateTime::unix_duration`] and
/// [`DateTime::from_unix_duration`], converting a valid timestamp to its
/// Unix duration and back yields exactly the original timestamp.
pub proof fn lemma_unix_secs_injective(a: DateTime, b: DateTime)
    requires
        a.wf(),
        b.wf(),
        a.spec_unix_secs() == b.spec_unix_secs(),
    ensures
        a == b,
{
    let ha = a.hour * 3600 + a.minute * 60 + a.second;
    let hb = b.hour * 3600 + b.minute * 60 + b.second;
    lemma_day_of_year_bound(a);
    lemma_day_of_year_bound(b);
    lemma_days_before_year_mono(1970, a.year as int);
    lemma_days_before_year_mono(1970, b.year as int);
    assert(0 <= a.spec_unix_days());
    assert(0 <= b.spec_unix_days());
    assert(a.spec_unix_days() == b.spec_unix_days() && ha == hb);
    let y1 = a.year as int;
    let y2 = b.year as int;
    if y1 < y2 {
        lemma_days_before_year_mono(y1 + 1, y2);
        assert(false);
    }
    if y2 < y1 {
        lemma_days_before_year_mono(y2 + 1, y1);
        assert(false);
    }
    let m1 = a.month as int;
    let m2 = b.month as int;
    if m1 < m2 {
        lemma_days_before_month_mono(y1, m1 + 1, m2);
        assert(spec_days_before_month(y1, m1 + 1) == spec_days_before_month(y1, m1)
            + spec_days_in_month(y1, m1));
        assert(false);
    }
    if m2 < m1 {
        lemma_days_before_month_mono(y1, m2 + 1, m1);
        assert(spec_days_before_month(y1, m2 + 1) == spec_days_before_month(y1, m2)
            + spec_days_in_month(y1, m2));
        assert(false);
    }
}

} // verus!
