[package]
name = "apidock"
version = "0.1.0"
edition = "2021"
publish = false

[dependencies]
serde = { version = "1", features = ["derive"] }
serde_json = "1"
regex-lite = "*"
uuid = { version = "1", features = ["v4"] }
serde_urlencoded = "*"
serde_yaml_ng = "*"
openapiv3 = "*"
mime_guess = "*"
dirs = "*"
async-trait = "*"
tokio = { version = "1", features = ["fs", "rt", "macros"] }
reqwest = { version = "*", features = ["cookies", "multipart"] }
sea-orm = { version = "1", default-features = false, features = ["sqlx-sqlite", "runtime-tokio-rustls", "macros"] }
sea-orm-migration = { version = "1", default-features = false, features = ["sqlx-sqlite", "runtime-tokio-rustls"] }
