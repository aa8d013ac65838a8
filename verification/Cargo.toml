[package]
name = "tfl_gtfs"
version = "0.1.0"
edition = "2021"
publish = false

[dependencies]
rust-crypto = "*"
csv = "*"
serde_json = { version = "*", features = ["arbitrary_precision"] }
serde = { version = "*", features = ["derive"] }
rand = "*"
hyper = "0.10"
clap = "*"
env_logger = "*"
log = "*"
ansi_term = "*"
scoped_threadpool = "*"
