[package]
name = "bench_rs"
version = "0.2.1"
edition = "2021"
publish = false

[dependencies]
bunt = "*"
pin-project = "*"
darling = "0.14"
syn = { version = "1", features = ["full"] }
quote = "1"
proc-macro2 = "1"

[dev-dependencies]
rand = "0.7"
rcnb-rs = "*"
