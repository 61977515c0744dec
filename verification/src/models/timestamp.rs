//! Wall-clock time of a capture.

use vstd::prelude::*;

verus! {

/// Time since the UNIX epoch, as whole seconds and nanoseconds of the second
/// under way.
#[derive(Clone, Copy, Debug, PartialEq, Eq, Structural)]
pub struct Timestamp {
    pub secs: u64,
    pub subsec_nanos: u32,
}

impl Timestamp {
    /// Nanoseconds since the UNIX epoch.
    pub open spec fn nanos(self) -> int {
        self.secs * 1_000_000_000 + self.subsec_nanos
    }

    /// Nanoseconds since the UNIX epoch, in the 64 bits of a record (which last
    /// until the year 2554).
    pub fn epoch_ns(self) -> (r: u64)
        ensures
            r == self.nanos() % 0x1_0000_0000_0000_0000,
    {
        let nanos = self.secs as u128 * 1_000_000_000 + self.subsec_nanos as u128;
        (nanos % 0x1_0000_0000_0000_0000u128) as u64
    }
}

/// Time counts in nanoseconds from the epoch: a second is 1,000,000,000 of them.
pub proof fn seconds_are_nanoseconds(a: Timestamp, b: Timestamp)
    ensures
        a.secs == 0 && a.subsec_nanos == 0 ==> a.nanos() == 0,
        b.nanos() - a.nanos() == (b.secs - a.secs) * 1_000_000_000 + (b.subsec_nanos
            - a.subsec_nanos),
{
}

} // verus!
