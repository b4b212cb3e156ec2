[package]
name = "lbt"
version = "0.1.0"
edition = "2021"
publish = false

[dependencies]
glob = "*"
sha2 = "*"
shlex = "*"
serde = { version = "*", features = ["derive"] }
serde_json = "*"
serde_yaml = "*"
toml = "*"
