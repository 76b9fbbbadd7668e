[package]
name = "miden_debug"
version = "0.1.0"
edition = "2021"
publish = false

[dependencies]
miden-core = "=0.23.5"
miden-processor = "=0.23.5"
miden-assembly = "=0.23.5"
miden-assembly-syntax = "=0.23.5"
miden-debug-types = "=0.23.5"
miden-mast-package = "=0.23.5"
log = "=0.4.35"
clap = { version = "=4.6.7", features = ["derive", "env"] }
serde_json = "=1.0.154"
smallvec = "=1.16.4"
rustc-demangle = { version = "=0.1.28", features = ["std"] }
thiserror = "=2.0.21"
dap = { version = "=0.4.1-alpha1", features = ["client"] }
ratatui = "=0.29.0"
