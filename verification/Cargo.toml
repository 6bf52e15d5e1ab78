[package]
name = "testdir"
version = "0.1.0"
edition = "2021"
publish = false

[dependencies]
anyhow = "1"
backtrace = "0.3"
cargo_metadata = "0.14"
once_cell = "1"
sysinfo = { version = "0.26", default-features = false }
whoami = "1"

[dev-dependencies]
tempfile = "3"
