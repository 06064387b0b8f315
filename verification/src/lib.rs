//! Client-side model of a conference schedule: events with timezone-aware
//! timestamps, composable schedule filters, venue queries, and an announcer
//! that picks the next event to notify while the schedule is refreshed on an
//! interval.

pub mod announcer;
pub mod event;
pub mod mutation;
pub mod now_and_next;
pub mod schedule;
pub mod strings;
pub mod timestamp;

pub use crate::timestamp::Timestamp;
