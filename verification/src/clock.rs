//! The process CPU-time clock: an opaque monotonic time source, modelled as a
//! nanosecond count since an arbitrary per-process origin.

use vstd::prelude::*;

verus! {

/// One sample of the process CPU-time clock.
///
/// Samples are meaningful only relative to one another: the duration of an
/// interval is the difference between the sample at its end and the sample at
/// its start. The clock is assumed monotonic non-decreasing, so a later sample
/// never holds fewer nanoseconds than an earlier one; nothing here depends on
/// the origin the counts are taken from.
#[derive(Clone, Copy, Debug, PartialEq, Eq, Structural)]
pub struct ProcessSample {
    /// Nanoseconds of CPU time the process had consumed when the sample was
    /// taken.
    pub nanos: u64,
}

/// Relies on `cpu_time::ProcessTime::now` (and `as_duration`, which merely
/// unwraps the sampled `std::time::Duration`): it samples the CPU time the
/// process has consumed so far. The value depends on the moment of the call,
/// so nothing can be promised of it; callers state what holds of every
/// outcome. Panics only where the platform lacks the process CPU-time clock.
#[verifier::external_body]
pub(crate) fn now_sample() -> ProcessSample {
    ProcessSample { nanos: cpu_time::ProcessTime::now().as_duration().as_nanos() as u64 }
}

} // verus!
