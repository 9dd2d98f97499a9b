[package]
name = "plugin_runtime"
version = "0.1.0"
edition = "2021"
publish = false

[dependencies]
tokio = { version = "=1.53.2", features = ["rt", "sync", "fs"] }
serde_yaml = "=0.9.34"
async-trait = "=0.1.92"
futures = "=0.3.34"
log = "=0.4.34"
libloading = "0.8"
