//! Points in time and the spans between them.

use crate::outside::system_time;
use vstd::prelude::*;

verus! {

/// A point in time: the nanoseconds since the Unix epoch.
#[derive(Debug, Clone, Copy, PartialEq, Eq, Structural)]
pub struct Timestamp {
    pub nanos: i128,
}

/// The nanoseconds in a span of seconds with nanoseconds on top.
pub open spec fn span(secs: nat, nanos: nat) -> nat {
    secs * 1_000_000_000 + nanos
}

/// The time that the clock shows, given the seconds and nanoseconds since the
/// Unix epoch, or, as the error, those until it.
pub fn time_of(reading: Result<(u64, u32), (u64, u32)>) -> (res: Timestamp)
    ensures
        match reading {
            Ok(after) => res.nanos == span(after.0 as nat, after.1 as nat),
            Err(before) => res.nanos == -span(before.0 as nat, before.1 as nat),
        },
{
    match reading {
        Ok((secs, nanos)) => Timestamp {
            nanos: secs as i128 * 1_000_000_000i128 + nanos as i128,
        },
        Err((secs, nanos)) => Timestamp {
            nanos: -(secs as i128 * 1_000_000_000i128 + nanos as i128),
        },
    }
}

/// A time that the clock can show: its whole seconds before or after the Unix
/// epoch fit in 64 bits.
pub open spec fn is_clock_time(time: Timestamp) -> bool {
    -span(u64::MAX as nat, 999_999_999) <= time.nanos <= span(u64::MAX as nat, 999_999_999)
}

/// The time that the clock shows now. Nothing is said of which it is.
pub fn now() -> (res: Timestamp)
    ensures
        is_clock_time(res),
{
    time_of(system_time())
}

impl Timestamp {
    /// The nanoseconds from `earlier` to this point in time, or nothing where
    /// `earlier` comes later.
    pub fn duration_since(self, earlier: Timestamp) -> (res: Option<u128>)
        ensures
            match res {
                Some(d) => earlier.nanos <= self.nanos && d == self.nanos - earlier.nanos,
                None => self.nanos < earlier.nanos,
            },
    {
        if self.nanos < earlier.nanos {
            None
        } else if earlier.nanos >= 0 || self.nanos < 0 {
            Some((self.nanos - earlier.nanos) as u128)
        } else {
            Some(self.nanos as u128 + (-(earlier.nanos + 1)) as u128 + 1)
        }
    }
}

/// The nanoseconds in whole seconds.
pub fn seconds(n: u64) -> (res: u128)
    ensures
        res == span(n as nat, 0),
{
    n as u128 * 1_000_000_000u128
}

} // verus!
