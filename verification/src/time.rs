//! Timestamps: validated calendar structs, DOS date/time packing, and the
//! unix-seconds conversion behind the extended timestamp extra field.
//!
//! Supported years run from 1970 (the unix epoch) through 2107 (the top of
//! the DOS range). No time-zone arithmetic is performed: a `UtcDateTime` is
//! UTC by declaration, a `LocalDateTime` is whatever zone the archive's
//! writer used.

use vstd::arithmetic::div_mod::lemma_fundamental_div_mod;
use vstd::prelude::*;

verus! {

/// Whether a timestamp is UTC or in an unstated local zone.
#[derive(Debug, Clone, Copy, PartialEq, Eq, Structural)]
pub enum TimeZone {
    Utc,
    Local,
}

pub open spec fn spec_is_leap_year(y: int) -> bool {
    (y % 4 == 0 && y % 100 != 0) || y % 400 == 0
}

pub open spec fn spec_days_in_month(y: int, m: int) -> int {
    if m == 2 {
        if spec_is_leap_year(y) {
            29
        } else {
            28
        }
    } else if m == 4 || m == 6 || m == 9 || m == 11 {
        30
    } else {
        31
    }
}

/// The component ranges every date/time in this module satisfies.
pub open spec fn spec_valid_components(
    year: int,
    month: int,
    day: int,
    hour: int,
    minute: int,
    second: int,
    nanosecond: int,
) -> bool {
    &&& 1970 <= year <= 2107
    &&& 1 <= month <= 12
    &&& 1 <= day <= spec_days_in_month(year, month)
    &&& 0 <= hour < 24
    &&& 0 <= minute < 60
    &&& 0 <= second < 60
    &&& 0 <= nanosecond < 1_000_000_000
}

/// Days in all years from 1970 up to (excluding) `y`.
pub open spec fn spec_days_before_year(y: int) -> int
    decreases y,
{
    if y <= 1970 {
        0
    } else {
        spec_days_before_year(y - 1) + if spec_is_leap_year(y - 1) {
            366int
        } else {
            365int
        }
    }
}

/// Days in the months of year `y` before month `m`.
pub open spec fn spec_days_before_month(y: int, m: int) -> int
    decreases m,
{
    if m <= 1 {
        0
    } else {
        spec_days_before_month(y, m - 1) + spec_days_in_month(y, m - 1)
    }
}

/// Days since 1970-01-01 of the given date.
pub open spec fn spec_day_number(y: int, m: int, d: int) -> int {
    spec_days_before_year(y) + spec_days_before_month(y, m) + (d - 1)
}

/// Seconds since 1970-01-01T00:00:00 of the given date and time.
pub open spec fn spec_unix_seconds(y: int, m: int, d: int, h: int, mi: int, s: int) -> int {
    spec_day_number(y, m, d) * 86400 + h * 3600 + mi * 60 + s
}

proof fn lemma_days_before_year_bounds(y: int)
    requires
        1970 <= y,
    ensures
        365 * (y - 1970) <= spec_days_before_year(y) <= 366 * (y - 1970),
    decreases y,
{
    if y > 1970 {
        lemma_days_before_year_bounds(y - 1);
    }
}

proof fn lemma_months_total(y: int)
    ensures
        spec_days_before_month(y, 13) == if spec_is_leap_year(y) {
            366int
        } else {
            365int
        },
{
    reveal_with_fuel(spec_days_before_month, 13);
}

proof fn lemma_days_before_month_bound(y: int, m: int)
    requires
        1 <= m <= 13,
    ensures
        0 <= spec_days_before_month(y, m) <= 31 * (m - 1),
    decreases m,
{
    if m > 1 {
        lemma_days_before_month_bound(y, m - 1);
    }
}

/// Days in the given month (`month` is 1-based).
pub fn days_in_month(year: u16, month: u8) -> (r: u8)
    ensures
        r as int == spec_days_in_month(year as int, month as int),
{
    if month == 2 {
        if (year % 4 == 0 && year % 100 != 0) || year % 400 == 0 {
            29
        } else {
            28
        }
    } else if month == 4 || month == 6 || month == 9 || month == 11 {
        30
    } else {
        31
    }
}

/// A validated UTC timestamp.
#[derive(Debug, Clone, Copy, PartialEq, Eq, Structural)]
pub struct UtcDateTime {
    pub year: u16,
    pub month: u8,
    pub day: u8,
    pub hour: u8,
    pub minute: u8,
    pub second: u8,
    pub nanosecond: u32,
}

/// A validated timestamp in an unstated local time zone (as DOS timestamps
/// are).
#[derive(Debug, Clone, Copy, PartialEq, Eq, Structural)]
pub struct LocalDateTime {
    pub year: u16,
    pub month: u8,
    pub day: u8,
    pub hour: u8,
    pub minute: u8,
    pub second: u8,
    pub nanosecond: u32,
}

/// A timestamp read from an archive: UTC when an extended timestamp extra
/// field supplied it, local when only the DOS fields were present.
#[derive(Debug, Clone, Copy, PartialEq, Eq, Structural)]
pub enum ZipDateTimeKind {
    Utc(UtcDateTime),
    Local(LocalDateTime),
}

impl UtcDateTime {
    pub open spec fn spec_year(&self) -> u16 {
        self.year
    }

    pub open spec fn spec_month(&self) -> u8 {
        self.month
    }

    pub open spec fn spec_day(&self) -> u8 {
        self.day
    }

    pub open spec fn spec_hour(&self) -> u8 {
        self.hour
    }

    pub open spec fn spec_minute(&self) -> u8 {
        self.minute
    }

    pub open spec fn spec_second(&self) -> u8 {
        self.second
    }

    pub open spec fn spec_nanosecond(&self) -> u32 {
        self.nanosecond
    }

    /// The components are a valid calendar date and time.
    pub open spec fn wf(&self) -> bool {
        spec_valid_components(
            self.year as int,
            self.month as int,
            self.day as int,
            self.hour as int,
            self.minute as int,
            self.second as int,
            self.nanosecond as int,
        )
    }

    /// Seconds since the unix epoch.
    pub open spec fn spec_to_unix(&self) -> int {
        spec_unix_seconds(
            self.year as int,
            self.month as int,
            self.day as int,
            self.hour as int,
            self.minute as int,
            self.second as int,
        )
    }

    /// Builds a timestamp, validating the components: `None` exactly when
    /// they do not form a real date and time in the supported range.
    pub fn from_components(
        year: u16,
        month: u8,
        day: u8,
        hour: u8,
        minute: u8,
        second: u8,
        nanosecond: u32,
    ) -> (r: Option<UtcDateTime>)
        ensures
            r is Some <==> spec_valid_components(
                year as int,
                month as int,
                day as int,
                hour as int,
                minute as int,
                second as int,
                nanosecond as int,
            ),
            r matches Some(dt) ==> dt == (UtcDateTime { year, month, day, hour, minute, second, nanosecond }),
    {
        if !components_valid(year, month, day, hour, minute, second, nanosecond) {
            return None;
        }
        Some(UtcDateTime { year, month, day, hour, minute, second, nanosecond })
    }

    pub fn year(&self) -> (r: u16)
        ensures
            r == self.spec_year(),
    {
        self.year
    }

    pub fn month(&self) -> (r: u8)
        ensures
            r == self.spec_month(),
    {
        self.month
    }

    pub fn day(&self) -> (r: u8)
        ensures
            r == self.spec_day(),
    {
        self.day
    }

    pub fn hour(&self) -> (r: u8)
        ensures
            r == self.spec_hour(),
    {
        self.hour
    }

    pub fn minute(&self) -> (r: u8)
        ensures
            r == self.spec_minute(),
    {
        self.minute
    }

    pub fn second(&self) -> (r: u8)
        ensures
            r == self.spec_second(),
    {
        self.second
    }

    pub fn nanosecond(&self) -> (r: u32)
        ensures
            r == self.spec_nanosecond(),
    {
        self.nanosecond
    }

    /// This timestamp's zone: always UTC.
    pub fn timezone(&self) -> (r: TimeZone)
        ensures
            r == TimeZone::Utc,
    {
        TimeZone::Utc
    }

    /// Seconds since the unix epoch (never negative in the supported
    /// range).
    pub fn to_unix(&self) -> (r: i64)
        requires
            self.wf(),
        ensures
            r == self.spec_to_unix(),
            0 <= r < 0x200000000,
    {
        let mut days: u32 = 0;
        let mut y: u16 = 1970;
        while y < self.year
            invariant
                1970 <= y <= self.year <= 2107,
                days as int == spec_days_before_year(y as int),
            decreases self.year - y,
        {
            proof {
                lemma_days_before_year_bounds(y as int + 1);
            }
            days = days + (if (y % 4 == 0 && y % 100 != 0) || y % 400 == 0 {
                366
            } else {
                365
            });
            y = y + 1;
        }
        proof {
            lemma_days_before_year_bounds(self.year as int);
        }
        let mut m: u8 = 1;
        while m < self.month
            invariant
                1 <= m <= self.month <= 12,
                self.wf(),
                y == self.year,
                days as int == spec_days_before_year(self.year as int) + spec_days_before_month(
                    self.year as int,
                    m as int,
                ),
            decreases self.month - m,
        {
            proof {
                lemma_days_before_year_bounds(self.year as int);
                lemma_days_before_month_bound(self.year as int, m as int + 1);
            }
            days = days + days_in_month(self.year, m) as u32;
            m = m + 1;
        }
        proof {
            lemma_days_before_year_bounds(self.year as int);
            lemma_days_before_month_bound(self.year as int, self.month as int);
        }
        let day_number: u64 = days as u64 + (self.day - 1) as u64;
        day_number as i64 * 86400 + self.hour as i64 * 3600 + self.minute as i64 * 60
            + self.second as i64
    }

    /// The timestamp `secs` seconds after the unix epoch: the unique valid
    /// date and time whose [`Self::spec_to_unix`] equals `secs` (with zero
    /// nanoseconds).
    pub fn from_unix(secs: u32) -> (r: UtcDateTime)
        ensures
            r.wf(),
            r.spec_to_unix() == secs as int,
            r.spec_nanosecond() == 0,
    {
        let total_days: u32 = secs / 86400;
        let rem: u32 = secs % 86400;
        proof {
            lemma_fundamental_div_mod(secs as int, 86400);
            assert(total_days <= 49710) by (nonlinear_arith)
                requires
                    total_days == secs as int / 86400,
                    secs <= u32::MAX,
            ;
        }
        let hour: u32 = rem / 3600;
        let rem2: u32 = rem % 3600;
        let minute: u32 = rem2 / 60;
        let second: u32 = rem2 % 60;
        proof {
            lemma_fundamental_div_mod(rem as int, 3600);
            lemma_fundamental_div_mod(rem2 as int, 60);
            assert(hour < 24) by (nonlinear_arith)
                requires
                    hour == rem as int / 3600,
                    rem < 86400,
            ;
        }
        let mut y: u16 = 1970;
        let mut days: u32 = total_days;
        loop
            invariant
                1970 <= y <= 2107,
                spec_days_before_year(y as int) + days == total_days,
                total_days <= 49710,
            ensures
                1970 <= y <= 2107,
                spec_days_before_year(y as int) + days == total_days,
                days < (if spec_is_leap_year(y as int) {
                    366int
                } else {
                    365int
                }),
            decreases days,
        {
            let year_len: u32 = if (y % 4 == 0 && y % 100 != 0) || y % 400 == 0 {
                366
            } else {
                365
            };
            if days < year_len {
                break ;
            }
            proof {
                lemma_days_before_year_bounds(y as int + 1);
            }
            days = days - year_len;
            y = y + 1;
        }
        let mut m: u8 = 1;
        proof {
            lemma_months_total(y as int);
            assert(spec_days_before_month(y as int, 1) == 0);
        }
        while m < 12 && days >= days_in_month(y, m) as u32
            invariant
                1 <= m <= 12,
                spec_days_before_year(y as int) + spec_days_before_month(y as int, m as int)
                    + days == total_days,
                spec_days_before_month(y as int, m as int) + days < spec_days_before_month(
                    y as int,
                    13,
                ),
                1970 <= y <= 2107,
            decreases 12 - m,
        {
            days = days - days_in_month(y, m) as u32;
            m = m + 1;
        }
        proof {
            if m == 12 {
                assert(spec_days_before_month(y as int, 13) == spec_days_before_month(y as int, 12)
                    + spec_days_in_month(y as int, 12));
            }
            assert(days < spec_days_in_month(y as int, m as int));
        }
        let day: u8 = (days + 1) as u8;
        let r = UtcDateTime {
            year: y,
            month: m,
            day,
            hour: hour as u8,
            minute: minute as u8,
            second: second as u8,
            nanosecond: 0,
        };
        proof {
            assert(r.spec_to_unix() == secs as int) by (nonlinear_arith)
                requires
                    spec_day_number(r.year as int, r.month as int, r.day as int) == total_days,
                    r.spec_to_unix() == spec_day_number(r.year as int, r.month as int, r.day as int)
                        * 86400 + r.hour as int * 3600 + r.minute as int * 60 + r.second as int,
                    secs as int == total_days * 86400 + rem,
                    rem == hour * 3600 + rem2,
                    rem2 == minute * 60 + second,
                    r.hour == hour,
                    r.minute == minute,
                    r.second == second,
            ;
        }
        r
    }
}

/// Shared component validation.
fn components_valid(
    year: u16,
    month: u8,
    day: u8,
    hour: u8,
    minute: u8,
    second: u8,
    nanosecond: u32,
) -> (r: bool)
    ensures
        r == spec_valid_components(
            year as int,
            month as int,
            day as int,
            hour as int,
            minute as int,
            second as int,
            nanosecond as int,
        ),
{
    1970 <= year && year <= 2107 && 1 <= month && month <= 12 && 1 <= day && day <= days_in_month(
        year,
        month,
    ) && hour < 24 && minute < 60 && second < 60 && nanosecond < 1_000_000_000
}

impl LocalDateTime {
    pub open spec fn spec_year(&self) -> u16 {
        self.year
    }

    pub open spec fn spec_month(&self) -> u8 {
        self.month
    }

    pub open spec fn spec_day(&self) -> u8 {
        self.day
    }

    pub open spec fn spec_hour(&self) -> u8 {
        self.hour
    }

    pub open spec fn spec_minute(&self) -> u8 {
        self.minute
    }

    pub open spec fn spec_second(&self) -> u8 {
        self.second
    }

    pub open spec fn spec_nanosecond(&self) -> u32 {
        self.nanosecond
    }

    /// The components are a valid calendar date and time.
    pub open spec fn wf(&self) -> bool {
        spec_valid_components(
            self.year as int,
            self.month as int,
            self.day as int,
            self.hour as int,
            self.minute as int,
            self.second as int,
            self.nanosecond as int,
        )
    }

    /// Builds a timestamp, validating the components: `None` exactly when
    /// they do not form a real date and time in the supported range.
    pub fn from_components(
        year: u16,
        month: u8,
        day: u8,
        hour: u8,
        minute: u8,
        second: u8,
        nanosecond: u32,
    ) -> (r: Option<LocalDateTime>)
        ensures
            r is Some <==> spec_valid_components(
                year as int,
                month as int,
                day as int,
                hour as int,
                minute as int,
                second as int,
                nanosecond as int,
            ),
            r matches Some(dt) ==> dt == (LocalDateTime { year, month, day, hour, minute, second, nanosecond }),
    {
        if !components_valid(year, month, day, hour, minute, second, nanosecond) {
            return None;
        }
        Some(LocalDateTime { year, month, day, hour, minute, second, nanosecond })
    }

    pub fn year(&self) -> (r: u16)
        ensures
            r == self.spec_year(),
    {
        self.year
    }

    pub fn month(&self) -> (r: u8)
        ensures
            r == self.spec_month(),
    {
        self.month
    }

    pub fn day(&self) -> (r: u8)
        ensures
            r == self.spec_day(),
    {
        self.day
    }

    pub fn hour(&self) -> (r: u8)
        ensures
            r == self.spec_hour(),
    {
        self.hour
    }

    pub fn minute(&self) -> (r: u8)
        ensures
            r == self.spec_minute(),
    {
        self.minute
    }

    pub fn second(&self) -> (r: u8)
        ensures
            r == self.spec_second(),
    {
        self.second
    }

    pub fn nanosecond(&self) -> (r: u32)
        ensures
            r == self.spec_nanosecond(),
    {
        self.nanosecond
    }

    /// This timestamp's zone: always the writer's unstated local zone.
    pub fn timezone(&self) -> (r: TimeZone)
        ensures
            r == TimeZone::Local,
    {
        TimeZone::Local
    }
}

impl ZipDateTimeKind {
    pub fn year(&self) -> (r: u16)
        ensures
            r == (match self {
                ZipDateTimeKind::Utc(dt) => dt.spec_year(),
                ZipDateTimeKind::Local(dt) => dt.spec_year(),
            }),
    {
        match self {
            ZipDateTimeKind::Utc(dt) => dt.year(),
            ZipDateTimeKind::Local(dt) => dt.year(),
        }
    }

    pub fn timezone(&self) -> (r: TimeZone)
        ensures
            r == (match self {
                ZipDateTimeKind::Utc(_) => TimeZone::Utc,
                ZipDateTimeKind::Local(_) => TimeZone::Local,
            }),
    {
        match self {
            ZipDateTimeKind::Utc(dt) => dt.timezone(),
            ZipDateTimeKind::Local(dt) => dt.timezone(),
        }
    }
}

/// The DOS date (year-month-day) field for a timestamp: zero for years
/// before the DOS epoch 1980.
pub open spec fn spec_dos_date(y: int, m: int, d: int) -> u16 {
    if y < 1980 {
        0
    } else {
        (((y - 1980) * 0x200 + m * 0x20 + d) % 0x10000) as u16
    }
}

/// The DOS time (hour-minute-seconds/2) field for a timestamp: zero for
/// years before the DOS epoch 1980.
pub open spec fn spec_dos_time(y: int, h: int, mi: int, s: int) -> u16 {
    if y < 1980 {
        0
    } else {
        (h * 0x800 + mi * 0x20 + s / 2) as u16
    }
}

/// The local timestamp a packed DOS value unpacks to: the raw bit fields,
/// with out-of-range components clamped into the valid calendar range (so
/// a zero DOS value unpacks to 1980-01-01T00:00:00).
pub open spec fn spec_dos_to_local(time: u16, date: u16) -> LocalDateTime {
    let year: u16 = (1980 + (date >> 9)) as u16;
    let month_raw: u8 = ((date >> 5) & 0x0F) as u8;
    let month: u8 = if month_raw < 1 {
        1u8
    } else if month_raw > 12 {
        12u8
    } else {
        month_raw
    };
    let dim = spec_days_in_month(year as int, month as int);
    let day_raw: u8 = (date & 0x1F) as u8;
    let day: u8 = if day_raw < 1 {
        1u8
    } else if day_raw > dim {
        dim as u8
    } else {
        day_raw
    };
    let hour_raw: u8 = (time >> 11) as u8;
    let hour: u8 = if hour_raw > 23 {
        23u8
    } else {
        hour_raw
    };
    let minute_raw: u8 = ((time >> 5) & 0x3F) as u8;
    let minute: u8 = if minute_raw > 59 {
        59u8
    } else {
        minute_raw
    };
    let second_raw = 2 * ((time & 0x1F) as int);
    let second: u8 = if second_raw > 59 {
        59u8
    } else {
        second_raw as u8
    };
    LocalDateTime { year, month, day, hour, minute, second, nanosecond: 0 }
}

/// A packed MS-DOS date and time, as the fixed ZIP header fields store it.
#[derive(Debug, Clone, Copy, PartialEq, Eq, Structural)]
pub struct DosDateTime {
    pub time: u16,
    pub date: u16,
}

impl DosDateTime {
    /// Packs a UTC timestamp into DOS fields, truncating seconds to
    /// two-second resolution; timestamps before 1980 pack to zero.
    pub fn from_utc(dt: &UtcDateTime) -> (r: DosDateTime)
        requires
            dt.wf(),
        ensures
            r.time == spec_dos_time(
                dt.spec_year() as int,
                dt.spec_hour() as int,
                dt.spec_minute() as int,
                dt.spec_second() as int,
            ),
            r.date == spec_dos_date(
                dt.spec_year() as int,
                dt.spec_month() as int,
                dt.spec_day() as int,
            ),
    {
        let year = dt.year();
        if year < 1980 {
            return DosDateTime { time: 0, date: 0 };
        }
        let date: u16 = (year - 1980) * 0x200 + dt.month() as u16 * 0x20 + dt.day() as u16;
        let time: u16 = dt.hour() as u16 * 0x800 + dt.minute() as u16 * 0x20 + dt.second() as u16
            / 2;
        DosDateTime { time, date }
    }

    /// The `(time, date)` pair as stored in the fixed header fields.
    pub fn into_parts(self) -> (r: (u16, u16))
        ensures
            r.0 == self.time,
            r.1 == self.date,
    {
        (self.time, self.date)
    }

    /// Wraps raw header fields.
    pub fn from_parts(time: u16, date: u16) -> (r: DosDateTime)
        ensures
            r.time == time,
            r.date == date,
    {
        DosDateTime { time, date }
    }

    /// Unpacks into a local-zone timestamp, clamping out-of-range fields
    /// into the valid calendar range (DOS value zero becomes
    /// 1980-01-01T00:00:00).
    pub fn to_local(self) -> (r: LocalDateTime)
        ensures
            r == spec_dos_to_local(self.time, self.date),
            r.wf(),
    {
        proof {
            let d = self.date;
            assert(d >> 9 < 128) by (bit_vector);
            assert(((d >> 5) & 0x0F) < 16) by (bit_vector);
            assert((d & 0x1F) < 32) by (bit_vector);
            let t = self.time;
            assert(t >> 11 < 32 && ((t >> 5) & 0x3F) < 64 && (t & 0x1F) < 32) by (bit_vector);
        }
        let year: u16 = 1980 + (self.date >> 9);
        let month_raw: u8 = ((self.date >> 5) & 0x0F) as u8;
        let month: u8 = if month_raw < 1 {
            1
        } else if month_raw > 12 {
            12
        } else {
            month_raw
        };
        let day_raw: u8 = (self.date & 0x1F) as u8;
        let dim = days_in_month(year, month);
        let day: u8 = if day_raw < 1 {
            1
        } else if day_raw > dim {
            dim
        } else {
            day_raw
        };
        let hour_raw: u8 = (self.time >> 11) as u8;
        let hour: u8 = if hour_raw > 23 {
            23
        } else {
            hour_raw
        };
        let minute_raw: u8 = ((self.time >> 5) & 0x3F) as u8;
        let minute: u8 = if minute_raw > 59 {
            59
        } else {
            minute_raw
        };
        let second_raw: u16 = (self.time & 0x1F) * 2;
        let second: u8 = if second_raw > 59 {
            59
        } else {
            second_raw as u8
        };
        LocalDateTime { year, month, day, hour, minute, second, nanosecond: 0 }
    }
}

} // verus!
