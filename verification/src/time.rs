//! Timestamps carried by inode metadata and directory entries.

use vstd::prelude::*;

verus! {

/// A point in time: whole seconds and a nanosecond remainder.
///
/// The engine itself never reads a clock; callers pass the current time into
/// each operation that must stamp it.
#[derive(Clone, Copy, PartialEq, Eq, Structural, Debug)]
pub struct TimeSpec {
    pub sec: u64,
    pub nsec: u32,
}

impl TimeSpec {
    /// The zero timestamp.
    pub fn zero() -> (r: TimeSpec)
        ensures
            r.sec == 0 && r.nsec == 0,
    {
        TimeSpec { sec: 0, nsec: 0 }
    }

    /// Carries a raw on-disk FAT32 stamp (a 16-bit date and a 16-bit time of
    /// day) without interpreting it: the date lands in the upper half of
    /// `sec`, the time of day in the lower half.
    pub fn from_fat_stamp(date: u16, tod: u16) -> (r: TimeSpec)
        ensures
            r == TimeSpec::spec_from_fat_stamp(date, tod),
    {
        TimeSpec { sec: date as u64 * 65536 + tod as u64, nsec: 0 }
    }

    /// The value `from_fat_stamp` builds.
    pub open spec fn spec_from_fat_stamp(date: u16, tod: u16) -> TimeSpec {
        TimeSpec { sec: (date as u64 * 65536 + tod as u64) as u64, nsec: 0 }
    }
}

impl Default for TimeSpec {
    /// The zero timestamp.
    fn default() -> (r: TimeSpec)
        ensures
            r.sec == 0 && r.nsec == 0,
    {
        TimeSpec { sec: 0, nsec: 0 }
    }
}

} // verus!
