[package]
name = "hyperfold"
version = "0.1.0"
edition = "2021"
publish = false

[dependencies]
regex = "=1.13.1"
syn = { version = "=2.0.119", features = ["full", "visit", "extra-traits"] }
quote = "=1.0.47"
proc-macro2 = "=1.0.107"
toml = "=1.2.1"
parse_cfg = "=4.1.1"
unicode-ident = "=1.0.27"
