[package]
name = "data-save-manager"
version = "0.1.0"
edition = "2021"
publish = false

[dependencies]
anyhow = "1"
opentelemetry = { version = "0.31", default-features = false, features = ["metrics"] }
serde = "1"
serde_json = "1"
sqlx = { version = "0.8", default-features = false, features = ["json", "postgres", "runtime-tokio", "uuid"] }
thiserror = "2"
tokio = { version = "1", features = ["macros", "rt", "rt-multi-thread", "sync", "time"] }
tracing = "0.1"
uuid = { version = "1", features = ["v4"] }
