//! The state behind the user interface of the debugger.
pub mod breakpoint;
pub mod stack;
pub mod state;
