//! Cadence: an in-process publish/subscribe message bus.

pub mod base64;
pub mod bus;
pub mod channel;
pub mod environ;
pub mod hist;
pub mod laws;
pub mod lockfree;
pub mod message;
pub mod persist;
pub mod persist_verify;
pub mod rate;
pub mod schedule;
pub mod spsc;
pub mod stats;
pub mod text;
pub mod write_run;
