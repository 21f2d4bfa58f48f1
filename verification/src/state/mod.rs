//! The state of synchronisation: cycles, events, destinations and tasks.
//!
//! The rows are held in memory here; storing them is done elsewhere.

pub mod cycle_laws;
pub mod cycles;
pub mod events;
pub mod log_laws;
pub mod offsets;
pub mod target_laws;
pub mod targets;
pub mod tasks;
pub mod notices;
pub mod reports;
pub mod row_laws;
pub mod issues;
pub mod types;
pub mod views;
