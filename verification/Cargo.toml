[package]
name = "syn-select"
version = "0.2.0"
edition = "2021"
publish = false

[dependencies]
quote = "1"
syn = { version = "=1.0.109", features = ["full"] }
