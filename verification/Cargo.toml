[package]
name = "rio"
version = "0.1.0"
edition = "2021"
publish = false

[dependencies]
clap = { version = "4", features = ["derive"] }
crossbeam = "0.8"
ctrlc = { version = "3", features = ["termination"] }
dlopen = "0.1"
dlopen_derive = "0.1"
lazy_static = "1"
nix = { version = "0.29", features = ["signal"] }
perf-event = "0.4"
serde = { version = "1", features = ["derive"] }
serde_json = "1"
shellwords = "1"
