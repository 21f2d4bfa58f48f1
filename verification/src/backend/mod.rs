//! What users and other machines ask of the daemon.

pub mod browse;
pub mod change_laws;
pub mod changes;
pub mod delegation;
pub mod overview;
pub mod service;
pub mod sync;
pub mod types;
