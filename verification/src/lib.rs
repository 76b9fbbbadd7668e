//! The core of a debugger for programs of the Miden virtual machine.
pub mod config;
pub mod debug;
pub mod exec;
pub mod layout;
pub mod linker;
pub mod package;
pub mod snapshots;
pub mod text;
pub mod trace;
pub mod ui;
