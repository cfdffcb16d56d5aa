use vstd::prelude::*;

verus! {

/// A timezone-aware timestamp with second precision: a proleptic Gregorian
/// calendar date, a time of day, and the UTC offset (seconds east of UTC) of
/// the zone in which the instant was recorded.
#[derive(Clone, Copy, Debug, PartialEq, Eq, Structural)]
pub struct Timestamp {
    pub year: i64,
    pub month: i64,
    pub day: i64,
    pub hour: i64,
    pub minute: i64,
    pub second: i64,
    /// Seconds east of UTC.
    pub offset: i64,
}

pub open spec fn is_leap_year(y: int) -> bool {
    (y % 4 == 0 && y % 100 != 0) || y % 400 == 0
}

pub open spec fn days_in_month(y: int, m: int) -> int {
    if m == 2 {
        if is_leap_year(y) {
            29
        } else {
            28
        }
    } else if m == 4 || m == 6 || m == 9 || m == 11 {
        30
    } else {
        31
    }
}

/// Days from the start of year 0 to the start of year `y` in the proleptic
/// Gregorian calendar.
pub open spec fn days_before_year(y: int) -> int
    decreases y,
{
    if y <= 0 {
        0
    } else {
        days_before_year(y - 1) + if is_leap_year(y - 1) {
            366int
        } else {
            365int
        }
    }
}

/// Days from the start of year `y`'s January to the start of its month `m`.
pub open spec fn days_before_month(y: int, m: int) -> int
    decreases m,
{
    if m <= 1 {
        0
    } else {
        days_before_month(y, m - 1) + days_in_month(y, m - 1)
    }
}

impl Timestamp {
    /// Well-formedness: a real calendar date of years 0 through 9999, a real
    /// time of day, and a whole-minute UTC offset of less than a day.
    pub open spec fn wf(self) -> bool {
        &&& 0 <= self.year <= 9999
        &&& 1 <= self.month <= 12
        &&& 1 <= self.day <= days_in_month(self.year as int, self.month as int)
        &&& 0 <= self.hour < 24
        &&& 0 <= self.minute < 60
        &&& 0 <= self.second < 60
        &&& -86400 < self.offset < 86400
        &&& self.offset % 60 == 0
    }

    /// The instant this timestamp denotes, as seconds since
    /// 0000-01-01T00:00:00Z of the proleptic Gregorian calendar. Two
    /// timestamps of different zones compare by this value.
    pub open spec fn instant(self) -> int {
        (days_before_year(self.year as int) + days_before_month(
            self.year as int,
            self.month as int,
        ) + (self.day - 1)) * 86400 + self.hour * 3600 + self.minute * 60 + self.second
            - self.offset
    }

    /// Builds a timestamp from its parts, rejecting any combination that is
    /// not a well-formed calendar time.
    pub fn new(
        year: i64,
        month: i64,
        day: i64,
        hour: i64,
        minute: i64,
        second: i64,
        offset: i64,
    ) -> (r: Option<Timestamp>)
        ensures
            (Timestamp { year, month, day, hour, minute, second, offset }).wf() ==> r == Some(
                Timestamp { year, month, day, hour, minute, second, offset },
            ),
            !(Timestamp { year, month, day, hour, minute, second, offset }).wf() ==> r is None,
    {
        if 0 <= year && year <= 9999 && 1 <= month && month <= 12 && 1 <= day && day
            <= month_length(year, month) && 0 <= hour && hour < 24 && 0 <= minute && minute < 60
            && 0 <= second && second < 60 && -86400 < offset && offset < 86400 && offset % 60
            == 0 {
            Some(Timestamp { year, month, day, hour, minute, second, offset })
        } else {
            None
        }
    }

    /// Seconds between this instant and the calendar's epoch instant; the
    /// executable counterpart of [`Timestamp::instant`].
    pub fn instant_seconds(&self) -> (r: i64)
        requires
            self.wf(),
        ensures
            r == self.instant(),
    {
        let mut days: i64 = 0;
        let mut y: i64 = 0;
        while y < self.year
            invariant
                0 <= y <= self.year <= 9999,
                days == days_before_year(y as int),
                0 <= days <= 366 * y,
            decreases self.year - y,
        {
            if leap_year(y) {
                days = days + 366;
            } else {
                days = days + 365;
            }
            y = y + 1;
        }
        let mut m: i64 = 1;
        while m < self.month
            invariant
                self.wf(),
                1 <= m <= self.month,
                days == days_before_year(self.year as int) + days_before_month(
                    self.year as int,
                    m as int,
                ),
                0 <= days <= 366 * self.year + 31 * m,
            decreases self.month - m,
        {
            days = days + month_length(self.year, m);
            m = m + 1;
        }
        days = days + self.day - 1;
        days * 86400 + self.hour * 3600 + self.minute * 60 + self.second - self.offset
    }

    /// Whether this timestamp's instant is no later than `other`'s.
    pub fn is_at_or_before(&self, other: &Timestamp) -> (r: bool)
        requires
            self.wf(),
            other.wf(),
        ensures
            r == (self.instant() <= other.instant()),
    {
        self.instant_seconds() <= other.instant_seconds()
    }
}

/// Law: bare-date bounds take in the whole calendar day, at both ends: any
/// timestamp of day `(y, m, d)` lies at or after that day's 00:00:00 and at
/// or before its 23:59:59, taken in the same zone.
pub proof fn lemma_bare_date_bounds_inclusive(t: Timestamp, from: Timestamp, to: Timestamp)
    requires
        t.wf(),
        from == (Timestamp {
            year: t.year,
            month: t.month,
            day: t.day,
            hour: 0,
            minute: 0,
            second: 0,
            offset: t.offset,
        }),
        to == (Timestamp {
            year: t.year,
            month: t.month,
            day: t.day,
            hour: 23,
            minute: 59,
            second: 59,
            offset: t.offset,
        }),
    ensures
        from.instant() <= t.instant() <= to.instant(),
{
}

/// Whether year `y` is a leap year of the proleptic Gregorian calendar.
pub fn leap_year(y: i64) -> (r: bool)
    requires
        0 <= y,
    ensures
        r == is_leap_year(y as int),
{
    (y % 4 == 0 && y % 100 != 0) || y % 400 == 0
}

/// The number of days of month `m` of year `y`.
pub fn month_length(y: i64, m: i64) -> (r: i64)
    requires
        0 <= y,
        1 <= m <= 12,
    ensures
        r == days_in_month(y as int, m as int),
{
    if m == 2 {
        if leap_year(y) {
            29
        } else {
            28
        }
    } else if m == 4 || m == 6 || m == 9 || m == 11 {
        30
    } else {
        31
    }
}

} // verus!
