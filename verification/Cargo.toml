[package]
name = "bencher_core"
version = "0.1.0"
edition = "2021"
publish = false

[dependencies]
async-trait = "0.1"
bollard = "*"
diesel = { version = "2", features = ["sqlite"] }
dropshot = "*"
literally = "*"
rand = "0.8"
serde = { version = "1", features = ["derive"] }
serde_json = "1"
slog = "2"
thiserror = "1"
