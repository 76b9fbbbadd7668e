//! Running programs: one cycle at a time, with a host, remotely, or from a recording.
pub mod trace;
pub mod state;
pub mod codec;
pub mod dap;
pub mod json;
pub mod protocol;
pub mod dap_client;
pub mod advice;
pub mod options;
pub mod snapshot;
pub mod recorder;
pub mod host;
pub mod executor;
pub mod diagnostic;
