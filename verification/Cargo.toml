[package]
name = "cargo_apple_runner"
version = "0.1.0"
edition = "2021"
publish = false

[dependencies]
anyhow = "1"
object = "*"
plist = "1"
serde = { version = "1", features = ["derive"] }
serde_json = "1"
sysinfo = "*"
tracing = "0.1"
tracing-subscriber = { version = "0.3", features = ["env-filter"] }
