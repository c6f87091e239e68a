[package]
name = "auth_core"
version = "0.1.0"
edition = "2021"
publish = false

[dependencies]
base64 = "=0.22.1"
bcrypt = "=0.19.3"
log = "=0.4.34"
rocket = { version = "=0.5.2", features = ["json"] }
rocket-slogger = { version = "=1.2.0", features = ["terminal"] }
serde = { version = "=1.0.229", features = ["derive"] }
