//! Named-timer instrumentation: accumulate process CPU time per string label
//! across repeated start/stop cycles.
//!
//! A [`TimerState`] records, for one label, the sample at which the timer was
//! last resumed and the total nanoseconds accumulated over all completed
//! running intervals. A [`BreezyTimer`] maps labels to timer states and offers
//! the [`Timer`] operations `start`, `stop`, `elapsed` and `snapshot`.
//! [`DisabledTimer`] is the build variant with instrumentation compiled out:
//! it accepts the same calls, records nothing, and always reports no data.

pub mod clock;
pub mod registry;
pub mod state;

pub use clock::ProcessSample;
pub use registry::{BreezyTimer, DisabledTimer, Timer, TimerError};
pub use state::TimerState;
