//! Sampling and estimation engine for a process monitor.
//!
//! The engine is fed snapshots of the host's process table and derives, for
//! every process, a small set of synthetic scheduling figures: an estimated
//! total runtime, the progress made against it, the time that remains, an
//! interactivity label and a count of wake events.
//!
//! All quantities are fixed-point integers; `units` names the scales.

pub mod error;
pub mod estimate;
pub mod laws;
pub mod metrics;
pub mod order;
pub mod poll;
pub mod record;
pub mod store;
pub mod tracking;
pub mod units;

pub use crate::error::PollError;
pub use crate::poll::obtener_procesos;
pub use crate::record::{ProcessSnapshotEntry, ProcessStatus, Proceso};
pub use crate::store::StateStore;
pub use crate::tracking::TrackingState;
