//! Reconciliation of the device's free-running millisecond counter with the
//! host's wall clock, anchored once per session.
use vstd::prelude::*;
use crate::numeric::fits_i64;

verus! {

/// The anchor of a session: the device counter and the wall clock at the
/// first valid reading.
#[derive(Debug, Clone, Copy, PartialEq, Eq, Structural)]
pub struct ClockOffset {
    pub device_millis_at_start: i64,
    pub wall_millis_at_start: i64,
}

/// A reading placed on the host's wall clock (milliseconds since the Unix
/// epoch). The value is the floating-point literal the device sent.
#[derive(Debug, PartialEq, Eq)]
pub struct NormalizedReading {
    pub wall_millis: i64,
    pub value: Vec<u8>,
}

/// Wall-clock time of a device time: the device's spacing is kept exactly.
pub open spec fn reconciled_millis(offset: ClockOffset, device_millis: int) -> int {
    device_millis - offset.device_millis_at_start + offset.wall_millis_at_start
}

impl ClockOffset {
    /// Anchors a session at its first valid reading.
    pub fn capture(device_millis: i64, wall_millis_now: i64) -> (r: ClockOffset)
        ensures
            r.device_millis_at_start == device_millis,
            r.wall_millis_at_start == wall_millis_now,
    {
        ClockOffset { device_millis_at_start: device_millis, wall_millis_at_start: wall_millis_now }
    }

    /// The wall-clock time of `device_millis`; `None` where it falls outside
    /// the range of `i64`.
    pub fn reconcile(&self, device_millis: i64) -> (r: Option<i64>)
        ensures
            fits_i64(reconciled_millis(*self, device_millis as int)) ==> r == Some(
                reconciled_millis(*self, device_millis as int) as i64,
            ),
            !fits_i64(reconciled_millis(*self, device_millis as int)) ==> r is None,
    {
        let wall: i128 = device_millis as i128 - self.device_millis_at_start as i128
            + self.wall_millis_at_start as i128;
        if wall < i64::MIN as i128 || wall > i64::MAX as i128 {
            None
        } else {
            Some(wall as i64)
        }
    }
}

/// Readings anchored at one offset keep the device's spacing: two device
/// times that differ by `d` milliseconds land `d` milliseconds apart.
pub proof fn lemma_reconciled_spacing(offset: ClockOffset, a: int, b: int)
    ensures
        reconciled_millis(offset, b) - reconciled_millis(offset, a) == b - a,
        reconciled_millis(offset, offset.device_millis_at_start as int)
            == offset.wall_millis_at_start,
{
}

} // verus!
