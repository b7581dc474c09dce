[package]
name = "codexswitch-cli"
version = "0.1.0"
edition = "2021"
publish = false

[dependencies]
chrono = "*"
colored = "*"
inquire = "*"
rayon = "*"
serde = { version = "1", features = ["derive"] }
serde_json = "1"
toml_edit = "*"
