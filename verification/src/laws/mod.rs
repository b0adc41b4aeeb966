//! What each operation does, stated over its inputs and its result, or over the
//! results of several calls.
//!
//! A law speaks of an operation through `call_ensures`: whatever `r` the call may
//! give on these inputs, the law holds of it. For an operation that changes
//! something, `old` and `final` are the value before and after the call.

pub mod base64;
pub mod bus;
pub mod environ;
pub mod hist;
pub mod message;
pub mod persist;
pub mod persist_verify;
pub mod rate;
pub mod schedule;
pub mod spsc;
pub mod stats;
pub mod text;
pub mod write_run;
