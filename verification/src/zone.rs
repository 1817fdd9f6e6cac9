//! The data that TZif data stands for.

use vstd::prelude::*;

verus! {

/// The least timestamp, in seconds, that is supported. Timestamps below it
/// are clamped to it.
pub const TIMESTAMP_MIN: i64 = -377705023201;

/// The greatest timestamp, in seconds, that is supported. Timestamps above it
/// are clamped to it.
pub const TIMESTAMP_MAX: i64 = 253402207200;

/// The least offset from UTC, in seconds, that is supported: `-25:59:59`.
pub const OFFSET_MIN: i32 = -93599;

/// The greatest offset from UTC, in seconds, that is supported: `+25:59:59`.
pub const OFFSET_MAX: i32 = 93599;

/// A point in time from which on another local time type is in force.
#[derive(Clone, Copy, Debug, PartialEq, Eq)]
pub struct TzifTransition {
    /// The Unix timestamp, in seconds.
    pub timestamp: i64,
    /// The index of the local time type that is in force from then on.
    pub type_index: u8,
}

/// How the transition times of a local time type were given.
#[derive(Clone, Copy, Debug, PartialEq, Eq)]
pub enum TzifIndicator {
    /// As local wall clock time.
    LocalWall,
    /// As local standard time.
    LocalStandard,
    /// As UT, which is standard time too.
    UTStandard,
}

/// A local time type.
#[derive(Clone, Copy, Debug, PartialEq, Eq)]
pub struct TzifLocalTimeType {
    /// The offset from UTC, in seconds.
    pub offset: i32,
    /// Whether this is daylight saving time.
    pub is_dst: bool,
    /// The range of bytes in the designations that holds the abbreviation:
    /// its start, and the NUL byte that ends it.
    pub designation: (u8, u8),
    /// How the transition times were given.
    pub indicator: TzifIndicator,
}

/// A day in a POSIX TZ rule.
#[derive(Clone, Copy, Debug, PartialEq, Eq)]
pub enum PosixDay {
    /// `Jn`: a day of the year from 1 on, leap days not counted.
    JulianOne(i16),
    /// `n`: a day of the year from 0 on, leap days counted.
    JulianZero(i16),
    /// `Mm.w.d`: a week day of a week of a month.
    WeekdayOfMonth { month: i8, week: i8, weekday: i8 },
}

/// A day in a POSIX TZ rule, and the time on that day.
#[derive(Clone, Copy, Debug, PartialEq, Eq)]
pub struct PosixDayTime {
    pub date: PosixDay,
    /// Seconds since the start of the day. May be negative.
    pub time: i32,
}

/// When daylight saving time is in force.
#[derive(Clone, Copy, Debug, PartialEq, Eq)]
pub struct PosixRule {
    pub start: PosixDayTime,
    pub end: PosixDayTime,
}

/// The daylight saving time of a POSIX TZ string.
#[derive(Debug, PartialEq, Eq)]
pub struct PosixDst {
    pub abbrev: String,
    /// The offset from UTC, in seconds.
    pub offset: i32,
    /// When it is in force, where the string says so.
    pub rule: Option<PosixRule>,
}

/// What a POSIX TZ string says.
#[derive(Debug, PartialEq, Eq)]
pub struct PosixTimeZone {
    pub std_abbrev: String,
    /// The offset of standard time from UTC, in seconds.
    pub std_offset: i32,
    /// Daylight saving time, where the string has it.
    pub dst: Option<PosixDst>,
}

impl PosixTimeZone {
    /// There is daylight saving time, but no rule that says when.
    pub open spec fn dst_without_rule(&self) -> bool {
        self.dst matches Some(dst) && dst.rule is None
    }
}

/// The parts of a time zone whose number is fixed.
#[derive(Debug, PartialEq, Eq)]
pub struct TzifFixed {
    /// The name of the time zone, where it has one.
    pub name: Option<String>,
    /// The version byte of the header.
    pub version: u8,
    /// The checksum of the data that the time zone was parsed from.
    pub checksum: u32,
    /// The abbreviations of all local time types, each with a NUL behind it.
    pub designations: String,
    /// What the TZ string in the footer says, where there is one.
    pub posix_tz: Option<PosixTimeZone>,
}

/// A time zone, as TZif data gives it.
#[derive(Debug, PartialEq, Eq)]
pub struct TzifOwned {
    pub fixed: TzifFixed,
    /// The local time types.
    pub types: Vec<TzifLocalTimeType>,
    /// The transitions. The first one stands for the time before all others.
    pub transitions: Vec<TzifTransition>,
}

} // verus!
