[package]
name = "apex"
version = "0.1.0"
edition = "2021"
publish = false

[dependencies]
uuid = { version = "=1.29.0", features = ["v4"] }
rand = "=0.8.8"
regex = "=1.13.1"
serde = { version = "1", features = ["derive"] }
serde_json = "1"
toml = "0.8"
quick-xml = { version = "0.31", features = ["serialize"] }
serde_yaml = "0.9"
sha2 = "0.10"
clap = { version = "4", features = ["derive"] }
