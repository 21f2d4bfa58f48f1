//! The machines that take part: how they are found, shown and reached.

pub mod discovery;
pub mod lookup;
pub mod ssh;
pub mod status;
pub mod types;
