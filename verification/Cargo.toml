[package]
name = "handlr-gui"
version = "0.1.0"
edition = "2021"
publish = false

[dependencies]
toml_edit = "*"
regex = "1"
serde = { version = "1", features = ["derive"] }
serde_json = "1"
anyhow = "1"
gtk4 = { version = "*", features = ["v4_12"] }
