[package]
name = "fieldmask"
version = "0.1.0"
edition = "2021"
publish = false

[dependencies]
Inflector = { version = "=0.11.4", default-features = false }
textwrap = { version = "=0.16.4", default-features = false }
thiserror = "=1.0.69"
syn = { version = "=2.0.119", features = ["full"] }
prost = { version = "=0.14.4", default-features = false }
