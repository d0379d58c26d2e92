[package]
name = "aether"
version = "0.1.0"
edition = "2021"
publish = false

[dependencies]
anyhow = "1"
hex = "0.4"
nix = { version = "0.29", features = ["process"] }
serde = { version = "1", features = ["derive"] }
serde_json = "1"
sha2 = "0.10"
slog = "2"
tokio = { version = "1", features = ["sync", "time", "macros", "rt"] }
toml = "0.8"
