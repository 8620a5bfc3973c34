[package]
name = "etw-wrapper"
version = "1.0.0"
edition = "2021"
publish = false

[dependencies]
anyhow = "=1.0.104"
convert_case = "=0.12.0"
proc-macro2 = "=1.0.107"
proc-macro-crate = "=3.5.0"
quote = "=1.0.47"
safe-sid = "=1.0.0"
serde = { version = "=1.0.229", features = ["derive"] }
serde-xml-rs = "=0.8.2"
syn = { version = "=2.0.119", features = ["full"] }
unicode-ident = "=1.0.27"
windows-link = "=0.2.1"
