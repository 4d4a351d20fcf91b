[package]
name = "bench_harness"
version = "0.1.0"
edition = "2021"
publish = false

[dependencies]
shlex = "*"
sha2 = "*"
tar = "*"
flate2 = "*"
serde = { version = "*", features = ["derive"] }
serde_json = "*"
toml = "*"
crossbeam-channel = "*"
ctrlc = "*"
