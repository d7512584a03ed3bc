//! Core of a small request-driven service, in two independent parts:
//!
//! * [`store::TimestampStore`] — a map from opaque string keys to the
//!   monotonic instant at which each was last recorded, reporting whole
//!   elapsed seconds on lookup;
//! * [`analytics`] — pure batch operations over time-ordered identifier
//!   strings (ULIDs): re-encoding into the canonical hyphenated 128-bit
//!   form, and calendar/bit statistics over their embedded timestamps.
//!
//! All time sources are injected as plain millisecond readings, so every
//! computation here is deterministic and fully specified.

pub mod analytics;
pub mod calendar;
pub mod codec;
pub mod errors;
pub mod store;
