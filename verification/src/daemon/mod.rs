//! The daemon and its control tool.

pub mod instance;
pub mod relaunch;
pub mod report;
pub mod run;
pub mod units;
pub mod watch;
