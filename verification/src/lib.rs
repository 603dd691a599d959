//! A background task scheduler and step-execution engine.
//!
//! The crate stores user-defined automations as [`model::ScheduledTask`]s,
//! decides when each is due from a cron expression, and drives each task as
//! an ordered sequence of steps under a per-task failure policy, recording a
//! bounded run history.  All decision logic lives here, verified; the thin
//! shell around it (timers, processes, files) supplies plain values.

pub mod model;
pub mod text;
pub mod cron;
pub mod store;
pub mod sched;
pub mod engine;
pub mod codec;
pub mod plan;
pub mod mime;
