//! Time-of-day values and normalization of capture timestamps.
//!
//! A capture block carries an absolute UTC timestamp (seconds and
//! microseconds since the epoch).  The feed is reported in a fixed
//! target zone nine hours ahead of UTC with no seasonal shift, so
//! normalization keeps only the local time of day.

use vstd::prelude::*;

verus! {

/// Seconds the target zone runs ahead of UTC.
pub const ZONE_OFFSET_SECONDS: u64 = 32400;

/// Microseconds in one second.
pub const MICROS_PER_SECOND: u32 = 1000000;

/// A time of day at microsecond resolution, with no date part.
#[derive(Clone, Copy, Debug)]
pub struct TimeOfDay {
    pub hour: u8,
    pub minute: u8,
    pub second: u8,
    pub micro: u32,
}

impl TimeOfDay {
    /// The fields stay inside one day.
    pub open spec fn wf(self) -> bool {
        self.hour < 24 && self.minute < 60 && self.second < 60 && self.micro < 1000000
    }

    /// The value as microseconds since midnight; the comparison key.
    pub open spec fn as_micros(self) -> int {
        ((self.hour * 3600 + self.minute * 60 + self.second) as int) * 1000000 + self.micro
    }
}

/// A capture timestamp that no time of day represents.
#[derive(Clone, Copy, Debug, PartialEq, Eq, Structural)]
pub struct OutOfRangeTimestamp;

/// The time of day that a capture timestamp denotes in the target zone:
/// shift by the zone offset, drop whole days, split the remainder.
pub open spec fn local_time_spec(seconds: int, micros: int) -> TimeOfDay {
    let day_second = (seconds + ZONE_OFFSET_SECONDS) % 86400;
    TimeOfDay {
        hour: (day_second / 3600) as u8,
        minute: ((day_second / 60) % 60) as u8,
        second: (day_second % 60) as u8,
        micro: micros as u32,
    }
}

/// When normalization is owed to succeed: the instant is on or after
/// the epoch and the fractional part names a real microsecond count.
pub open spec fn normalizable(seconds: int, micros: int) -> bool {
    seconds >= 0 && micros < 1000000
}

/// Convert a capture timestamp (UTC seconds and microseconds since the
/// epoch) to the local time of day of the fixed target zone.  A
/// timestamp before the epoch or with an overlong fractional part
/// cannot be represented and is reported as such.
pub fn normalize_capture_time(seconds: i64, micros: u32) -> (r: Result<TimeOfDay, OutOfRangeTimestamp>)
    ensures
        r is Ok <==> normalizable(seconds as int, micros as int),
        r is Ok ==> r->Ok_0 == local_time_spec(seconds as int, micros as int),
        r is Ok ==> r->Ok_0.wf(),
{
    if seconds < 0 || micros >= MICROS_PER_SECOND {
        return Err(OutOfRangeTimestamp);
    }
    let shifted: u64 = (seconds as u64) + ZONE_OFFSET_SECONDS;
    let day_second: u64 = shifted % 86400;
    let t = TimeOfDay {
        hour: (day_second / 3600) as u8,
        minute: ((day_second / 60) % 60) as u8,
        second: (day_second % 60) as u8,
        micro: micros,
    };
    assert(shifted as int == seconds + ZONE_OFFSET_SECONDS);
    assert(day_second as int == (seconds + ZONE_OFFSET_SECONDS) % 86400);
    assert(t == local_time_spec(seconds as int, micros as int));
    Ok(t)
}

} // verus!
