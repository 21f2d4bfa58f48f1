//! Configuration: its shape, its rules, and how machines are referred to.

pub mod clean;
pub mod clean_laws;
pub mod host;
pub mod identity;
pub mod locality;
pub mod schedule_time;
pub mod types;
pub mod validate;
pub mod validate_laws;
