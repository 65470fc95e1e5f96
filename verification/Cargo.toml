[package]
name = "ascii-pack"
version = "0.1.0"
edition = "2021"
publish = false

[dependencies]
anyhow = "=1.0.104"
darling = "=0.20.11"
proc-macro2 = "=1.0.107"
quote = "=1.0.47"
strum = "=0.28.0"
syn = { version = "=2.0.119", features = ["full"] }
thiserror = "=2.0.21"
