//! A small countdown-timer library: calendar arithmetic, duration parsing
//! and formatting, a tick-by-tick countdown state machine, a persisted
//! job-identifier store, and the decision logic of an adapter to the host
//! deferred-execution facility.

pub mod calendar;
pub mod countdown;
pub mod duration;
pub mod errors;
pub mod jobstore;
pub mod scheduler;

pub use calendar::DateSnapshot;
pub use countdown::CountdownState;
pub use countdown::CountdownStatus;
pub use duration::Duration;
pub use errors::AtError;
pub use jobstore::JobStore;
