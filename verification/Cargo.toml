[package]
name = "twin_operator"
version = "0.1.0"
edition = "2021"
publish = false

[dependencies]
chrono = { version = "*", default-features = false, features = ["clock"] }
serde = { version = "*", features = ["derive"] }
serde_json = "*"
serde_yaml = "*"
anyhow = "*"
indexmap = { version = "*", features = ["serde"] }
log = "*"
url = "*"
reqwest = { version = "*", default-features = false, features = ["json"] }
tokio = { version = "*", features = ["rt", "macros", "time"] }
humantime-serde = "*"
