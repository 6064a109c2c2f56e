[package]
name = "acs_core"
version = "0.1.0"
edition = "2021"
publish = false

[dependencies]
lambdaworks-math = "*"
rand = "*"

[dev-dependencies]
bincode = "1"
