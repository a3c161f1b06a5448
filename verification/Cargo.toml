[package]
name = "kind"
version = "0.1.0"
edition = "2021"
publish = false

[dependencies]
uuid = { version = "1", features = ["v4"] }
serde = { version = "1", features = ["derive"] }
serde_json = "1"
schemars = "0.8"
utoipa = "4"
sqlx = { version = "0.7", features = ["postgres", "uuid", "runtime-tokio"], default-features = false }
