//! Instants, as the host supplies one with every call.

use vstd::prelude::*;

verus! {

/// A point in time, measured in microseconds since the Unix epoch.
///
/// Negative values denote instants before the epoch. Two instants compare
/// by their microsecond offsets.
#[derive(Clone, Copy, Debug, PartialEq, Eq, Structural, PartialOrd, Ord, Hash)]
pub struct Timestamp {
    micros: i64,
}

impl View for Timestamp {
    type V = int;

    /// The signed offset from the Unix epoch, in microseconds.
    closed spec fn view(&self) -> int {
        self.micros as int
    }
}

impl Timestamp {
    /// The instant `micros` microseconds after (or, if negative, before) the
    /// Unix epoch.
    pub fn from_micros_since_unix_epoch(micros: i64) -> (t: Timestamp)
        ensures
            t@ == micros,
    {
        Timestamp { micros }
    }

    /// The offset of this instant from the Unix epoch, in microseconds.
    pub fn to_micros_since_unix_epoch(self) -> (micros: i64)
        ensures
            micros == self@,
    {
        self.micros
    }
}

} // verus!
