[package]
name = "hugr_emit"
version = "0.1.0"
edition = "2021"
publish = false

[dependencies]
hugr = "=0.4.0"

[dev-dependencies]
itertools = "=0.12.1"
