[package]
name = "tpcgen_cli"
version = "0.1.0"
edition = "2021"
publish = false

[dependencies]
arrow = { version = "*", default-features = false }
parquet = { version = "*", default-features = false, features = ["arrow"] }
futures = "0.3"
tokio = { version = "1", features = ["rt", "rt-multi-thread", "sync", "macros"] }
log = "0.4"
