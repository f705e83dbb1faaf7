[package]
name = "piex_nodetree"
version = "0.1.0"
edition = "2021"
publish = false

[dependencies]
windows-registry = "*"
windows-result = "*"

[dev-dependencies]
serde_json = "*"
