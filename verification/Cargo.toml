[package]
name = "nexxus"
version = "0.1.0"
edition = "2021"
publish = false

[dependencies]
serde = { version = "=1.0.229", features = ["derive"] }
serde_json = "=1.0.154"
toml = "=1.1.8"
thiserror = "=2.0.21"
tracing = "=0.1.44"
x11rb = { version = "=0.14.0", features = ["randr"] }
cosmic-text = "=0.19.0"
resvg = "=0.49.0"
