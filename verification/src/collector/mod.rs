//! Collecting files from remote hosts into a local repository.

pub mod archive;
pub mod browse;
pub mod deploy;
pub mod lines;
pub mod names;
pub mod perms;
pub mod place;
pub mod pull;
pub mod pull_laws;
pub mod remote;
pub mod repo;
