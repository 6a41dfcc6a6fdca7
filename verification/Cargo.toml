[package]
name = "codex"
version = "0.1.0"
edition = "2021"
publish = false

[dependencies]
serde = { version = "1", features = ["derive"] }
serde_json = "1"
serde_yaml_ng = "*"
jsonschema = { version = "*", default-features = false }
chrono = "0.4"
uuid = "1"
thiserror = "*"
async-trait = "*"
tracing = "*"
sqlx = { version = "0.8", default-features = false, features = ["postgres", "uuid", "chrono", "json"] }
