[package]
name = "briq_utils"
version = "0.1.0"
edition = "2021"
publish = false

[dependencies]
convert_case = "*"
Inflector = "*"
serde = { version = "*", features = ["derive"] }
serde_json = "*"
clap = { version = "*", features = ["derive"] }
anyhow = "*"
csv = "*"
reqwest = { version = "*", default-features = false, features = ["blocking"] }
