//! What the debugger knows about the code being run: operations, call frames, memory queries.
pub mod op;
pub mod source;
pub mod stacktrace;
pub mod memory;
