//! An instant with a fixed offset from UTC, held as plain numbers.

use vstd::prelude::*;

verus! {

/// The largest distance from the epoch, in seconds, that a [`Timestamp`]
/// holds. The difference of two timestamps within it fits in an `i64`.
pub const SECONDS_LIMIT: i64 = 4_000_000_000_000_000_000;

/// The numbers that make up a timestamp.
#[derive(Clone, Copy, Debug, PartialEq, Eq, Structural)]
pub struct Reading {
    /// Seconds since 1970-01-01T00:00:00 UTC, leap seconds not counted.
    pub secs: i64,
    /// Nanoseconds since the last full second. During a leap second this is
    /// 1,000,000,000 or more.
    pub nanos: u32,
    /// Seconds to add to UTC to get the local time.
    pub offset: i32,
    /// Calendar year of the local date.
    pub year: i32,
    /// Month of the local date, counted from 1.
    pub month: u32,
    /// Day of the month of the local date, counted from 1.
    pub day: u32,
}

/// The numbers of a date and time that names no offset.
#[derive(Clone, Copy, Debug, PartialEq, Eq, Structural)]
pub struct LocalReading {
    /// Seconds from 1970-01-01T00:00:00 to the date and time, both taken in
    /// the same, unnamed offset.
    pub secs: i64,
    /// Nanoseconds since the last full second.
    pub nanos: u32,
    /// Calendar year.
    pub year: i32,
    /// Month, counted from 1.
    pub month: u32,
    /// Day of the month, counted from 1.
    pub day: u32,
}

impl Reading {
    /// Whether a [`Timestamp`] can hold these numbers.
    pub open spec fn in_range(self) -> bool {
        &&& -SECONDS_LIMIT <= self.secs <= SECONDS_LIMIT
        &&& self.nanos < 2_000_000_000
    }
}

/// An instant together with the offset from UTC in which it was written.
#[derive(Clone, Copy, Debug, PartialEq, Eq, Structural)]
pub struct Timestamp {
    reading: Reading,
}

impl View for Timestamp {
    type V = Reading;

    closed spec fn view(&self) -> Reading {
        self.reading
    }
}

impl Timestamp {
    #[verifier::type_invariant]
    spec fn well_formed(self) -> bool {
        self.reading.in_range()
    }

    /// A timestamp of the given numbers, if they are in range.
    pub fn new(reading: Reading) -> (result: Option<Timestamp>)
        ensures
            result is Some <==> reading.in_range(),
            result is Some ==> result->0@ == reading,
    {
        if -SECONDS_LIMIT <= reading.secs && reading.secs <= SECONDS_LIMIT && reading.nanos
            < 2_000_000_000 {
            Some(Timestamp { reading })
        } else {
            None
        }
    }

    /// The numbers of this timestamp.
    pub fn reading(&self) -> (result: Reading)
        ensures
            result == self@,
            result.in_range(),
    {
        proof {
            use_type_invariant(self);
        }
        self.reading
    }

    /// Seconds since the epoch, in UTC.
    pub fn timestamp(&self) -> (result: i64)
        ensures
            result == self@.secs,
    {
        self.reading.secs
    }

    /// Nanoseconds since the last full second.
    pub fn subsec_nanos(&self) -> (result: u32)
        ensures
            result == self@.nanos,
    {
        self.reading.nanos
    }

    /// Seconds to add to UTC to get the local time.
    pub fn offset_seconds(&self) -> (result: i32)
        ensures
            result == self@.offset,
    {
        self.reading.offset
    }

    /// Calendar year of the local date.
    pub fn year(&self) -> (result: i32)
        ensures
            result == self@.year,
    {
        self.reading.year
    }

    /// Month of the local date, counted from 1.
    pub fn month(&self) -> (result: u32)
        ensures
            result == self@.month,
    {
        self.reading.month
    }

    /// Day of the month of the local date, counted from 1.
    pub fn day(&self) -> (result: u32)
        ensures
            result == self@.day,
    {
        self.reading.day
    }

    /// Whether this instant is the instant of `other` or an earlier one.
    pub fn is_at_or_before(&self, other: &Timestamp) -> (result: bool)
        ensures
            result == at_or_before(self@, other@),
    {
        self.reading.secs < other.reading.secs || (self.reading.secs == other.reading.secs
            && self.reading.nanos <= other.reading.nanos)
    }
}

/// Whether the instant of `a` is that of `b` or an earlier one. The offsets
/// play no part.
pub open spec fn at_or_before(a: Reading, b: Reading) -> bool {
    a.secs < b.secs || (a.secs == b.secs && a.nanos <= b.nanos)
}

/// The reading of a timestamp that may be absent.
pub open spec fn reading_of(timestamp: Option<Timestamp>) -> Option<Reading> {
    match timestamp {
        Some(t) => Some(t@),
        None => None,
    }
}

/// The readings of a sequence of timestamps.
pub open spec fn readings(timestamps: Seq<Timestamp>) -> Seq<Reading> {
    timestamps.map_values(|t: Timestamp| t@)
}

/// Of two timestamps, one is at or before the other: the order leaves no
/// two timestamps uncompared.
pub proof fn lemma_order_is_total(a: Reading, b: Reading)
    ensures
        at_or_before(a, b) || at_or_before(b, a),
{
}

/// What is at or before a timestamp that is at or before a third is at or
/// before the third.
pub proof fn lemma_order_is_transitive(a: Reading, b: Reading, c: Reading)
    requires
        at_or_before(a, b),
        at_or_before(b, c),
    ensures
        at_or_before(a, c),
{
}

} // verus!
