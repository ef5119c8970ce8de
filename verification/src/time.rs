//! Block time, at nanosecond resolution.

use vstd::prelude::*;

verus! {

/// A point in time, counted in nanoseconds since the epoch.
///
/// The host runtime supplies the current block time with every call; the
/// library only stores and compares these values.
#[derive(Clone, Copy, Debug, PartialEq, Eq, Structural)]
pub struct Timestamp {
    pub nanos: u64,
}

impl Timestamp {
    /// The time `nanos` nanoseconds after the epoch.
    pub fn from_nanos(nanos: u64) -> (r: Timestamp)
        ensures
            r.nanos == nanos,
    {
        Timestamp { nanos }
    }

    /// The nanosecond count of this time.
    pub fn nanos(&self) -> (r: u64)
        ensures
            r == self.nanos,
    {
        self.nanos
    }

    /// This time in whole milliseconds, rounding down.
    pub fn millis(&self) -> (r: u64)
        ensures
            r == self.nanos / 1_000_000,
    {
        self.nanos / 1_000_000
    }
}

impl Default for Timestamp {
    /// The epoch itself.
    fn default() -> (r: Timestamp)
        ensures
            r.nanos == 0,
    {
        Timestamp { nanos: 0 }
    }
}

} // verus!
