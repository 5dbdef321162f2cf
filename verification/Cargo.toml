[package]
name = "enum_collections"
version = "0.1.0"
edition = "2021"
publish = false

[dependencies]
proc-macro2 = "1"
quote = "1"
syn = "2"
serde = "1"

[dev-dependencies]
serde_json = "1"
