//! Calendar date and time of day, to the second, as an archive's name holds it.

use vstd::prelude::*;

verus! {

/// The earliest year a timestamp can hold.
pub const MIN_YEAR: i32 = -262143;

/// The latest year a timestamp can hold.
pub const MAX_YEAR: i32 = 262142;

/// A local date and time of day in the proleptic Gregorian calendar.
///
/// `second` never exceeds 59. A leap second is the second 59 with a
/// `nanosecond` of a thousand million or more; it is written as second 60.
#[derive(Debug, Clone, Copy, PartialEq, Eq, Structural, Hash, PartialOrd, Ord)]
pub struct Timestamp {
    pub year: i32,
    pub month: u32,
    pub day: u32,
    pub hour: u32,
    pub minute: u32,
    pub second: u32,
    pub nanosecond: u32,
}

/// Whether `year` has a 29th of February.
pub open spec fn is_leap_year(year: int) -> bool {
    year % 4 == 0 && (year % 100 != 0 || year % 400 == 0)
}

/// The number of days of `month` in `year`, for a month from 1 to 12.
pub open spec fn days_in_month(year: int, month: int) -> int {
    if month == 2 {
        if is_leap_year(year) {
            29
        } else {
            28
        }
    } else if month == 4 || month == 6 || month == 9 || month == 11 {
        30
    } else {
        31
    }
}

impl Timestamp {
    /// The date exists in the calendar and the time exists on a 24-hour clock.
    pub open spec fn valid(self) -> bool {
        &&& MIN_YEAR <= self.year <= MAX_YEAR
        &&& 1 <= self.month <= 12
        &&& 1 <= self.day <= days_in_month(self.year as int, self.month as int)
        &&& self.hour < 24
        &&& self.minute < 60
        &&& self.second < 60
        &&& self.nanosecond < 2_000_000_000
        &&& self.nanosecond >= 1_000_000_000 ==> self.second == 59
    }

    /// Nothing finer than a second is held.
    pub open spec fn whole_second(self) -> bool {
        self.nanosecond == 0 || self.nanosecond == 1_000_000_000
    }

    /// `self` without what is finer than a second: at the start of its
    /// second, or at the start of the leap second where it lies in one.
    pub open spec fn to_second(self) -> Timestamp {
        Timestamp {
            nanosecond: if self.nanosecond >= 1_000_000_000 {
                1_000_000_000
            } else {
                0
            },
            ..self
        }
    }

    /// `self` is strictly earlier than `other`.
    pub open spec fn before(self, other: Timestamp) -> bool {
        if self.year != other.year {
            self.year < other.year
        } else if self.month != other.month {
            self.month < other.month
        } else if self.day != other.day {
            self.day < other.day
        } else if self.hour != other.hour {
            self.hour < other.hour
        } else if self.minute != other.minute {
            self.minute < other.minute
        } else if self.second != other.second {
            self.second < other.second
        } else {
            self.nanosecond < other.nanosecond
        }
    }

    /// `self` is `other` or earlier.
    pub open spec fn not_after(self, other: Timestamp) -> bool {
        self == other || self.before(other)
    }

    /// The given date and time at the start of its second, whether or not
    /// they exist.
    pub open spec fn at_second(
        year: i32,
        month: u32,
        day: u32,
        hour: u32,
        minute: u32,
        second: u32,
    ) -> Timestamp {
        Timestamp { year, month, day, hour, minute, second, nanosecond: 0 }
    }

    /// The timestamp of the given date and time, at the start of its second,
    /// where they exist; `None` where they do not.
    pub fn new(year: i32, month: u32, day: u32, hour: u32, minute: u32, second: u32) -> (made:
        Option<Timestamp>)
        ensures
            made is Some <==> Self::at_second(year, month, day, hour, minute, second).valid(),
            made matches Some(at) ==> at == Self::at_second(year, month, day, hour, minute, second),
    {
        let at = Timestamp { year, month, day, hour, minute, second, nanosecond: 0 };
        if at.is_valid() {
            Some(at)
        } else {
            None
        }
    }

    /// Whether the date exists in the calendar and the time on a 24-hour clock.
    pub fn is_valid(&self) -> (ok: bool)
        ensures
            ok == self.valid(),
    {
        if self.year < MIN_YEAR || self.year > MAX_YEAR {
            return false;
        }
        if self.month < 1 || self.month > 12 || self.day < 1 {
            return false;
        }
        // A multiple of 400 years makes the year positive and keeps its place
        // in the cycle of leap years.
        let shifted: u32 = (self.year + 262400) as u32;
        let leap = shifted % 4 == 0 && (shifted % 100 != 0 || shifted % 400 == 0);
        assert(leap == is_leap_year(self.year as int));
        let days: u32 = if self.month == 2 {
            if leap {
                29
            } else {
                28
            }
        } else if self.month == 4 || self.month == 6 || self.month == 9 || self.month == 11 {
            30
        } else {
            31
        };
        self.day <= days && self.hour < 24 && self.minute < 60 && self.second < 60
            && self.nanosecond < 2_000_000_000 && (self.nanosecond < 1_000_000_000 || self.second
            == 59)
    }

    /// `self` without what is finer than a second.
    pub fn cut_to_second(&self) -> (cut: Timestamp)
        ensures
            cut == self.to_second(),
    {
        Timestamp {
            year: self.year,
            month: self.month,
            day: self.day,
            hour: self.hour,
            minute: self.minute,
            second: self.second,
            nanosecond: if self.nanosecond >= 1_000_000_000 {
                1_000_000_000
            } else {
                0
            },
        }
    }

    /// Whether `self` is strictly earlier than `other`.
    pub fn is_before(&self, other: &Timestamp) -> (earlier: bool)
        ensures
            earlier == self.before(*other),
    {
        if self.year != other.year {
            self.year < other.year
        } else if self.month != other.month {
            self.month < other.month
        } else if self.day != other.day {
            self.day < other.day
        } else if self.hour != other.hour {
            self.hour < other.hour
        } else if self.minute != other.minute {
            self.minute < other.minute
        } else if self.second != other.second {
            self.second < other.second
        } else {
            self.nanosecond < other.nanosecond
        }
    }
}

/// Of two different timestamps exactly one is before the other, and none is
/// before itself.
pub proof fn lemma_before_is_total(a: Timestamp, b: Timestamp)
    ensures
        !a.before(a),
        a != b ==> (a.before(b) <==> !b.before(a)),
{
}

/// Being before is transitive.
pub proof fn lemma_before_is_transitive(a: Timestamp, b: Timestamp, c: Timestamp)
    requires
        a.before(b),
        b.before(c),
    ensures
        a.before(c),
{
}

} // verus!
