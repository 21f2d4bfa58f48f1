//! Verified logic of a directory synchronisation daemon.

pub mod backend;
pub mod bytes;
pub mod cancel;
pub mod chunked;
pub mod clock;
pub mod collector;
pub mod config;
pub mod daemon;
pub mod http;
pub mod ipv4;
pub mod local;
pub mod machines;
pub mod ndjson;
pub mod paths;
pub mod peer_notify;
pub mod pool;
pub mod progress;
pub mod response;
pub mod scheduler;
pub mod seqs;
pub mod signal;
pub mod sorted;
pub mod standby;
pub mod state;
pub mod status;
pub mod storage;
pub mod text;
