[package]
name = "bh_agent"
version = "0.1.0"
edition = "2021"
publish = false

[dependencies]
anyhow = "1"
pyo3 = { version = "0.20", features = ["extension-module", "abi3-py38"] }
serde = { version = "1", features = ["derive"] }
subprocess = "0.2"
tarpc = { version = "0.33", features = ["full"] }
thiserror = "1"
tokio = { version = "1", features = ["full"] }
