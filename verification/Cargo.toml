[package]
name = "extfield_precompiles"
version = "0.1.0"
edition = "2021"
publish = false

[dependencies]
p3-field = "*"
p3-koala-bear = "*"
alloy-primitives = "*"
alloy-sol-types = "*"
hex = "*"
serde = { version = "1", features = ["derive"] }
serde_json = "1"
anyhow = "1"
revm = "*"
alloy-evm = "*"
tokio = { version = "1", features = ["macros", "rt-multi-thread"] }
