[package]
name = "naveen-ai-host"
version = "0.1.0"
edition = "2021"
publish = false

[dependencies]
serde = { version = "1", features = ["derive"] }
serde_json = "1"
log = "0.4"
sysinfo = "0.33"
ureq = "3"
cpal = "0.15"
