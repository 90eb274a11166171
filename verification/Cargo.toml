[package]
name = "culebra"
version = "0.1.0"
edition = "2021"
publish = false

[dependencies]
regex = "1"
serde = { version = "1", features = ["derive"] }
serde_json = "1"
serde_yaml = "0.9"
clap = { version = "4", features = ["derive"] }
colored = "2"
goblin = "0.8"
notify = "6"
sha2 = "0.10"
toml = "0.8"
