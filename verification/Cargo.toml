[package]
name = "dd_registry_cw"
version = "0.1.0"
edition = "2021"
publish = false

[dependencies]
cosmwasm-std = "*"
cosmwasm-schema = "*"
cw-storage-plus = "*"
schemars = "*"
serde = { version = "*", features = ["derive"] }
thiserror = "*"
