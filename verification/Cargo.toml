[package]
name = "htmx-tasks"
version = "0.1.0"
edition = "2021"
publish = false

[dependencies]
askama = "0.14"
axum = "0.8"
rand = "0.9"
serde = { version = "1", features = ["derive"] }
sqlx = { version = "0.8", default-features = false }
tokio = { version = "1", features = ["full"] }
tower-http = { version = "0.6", features = ["fs"] }
tower-sessions = "0.14"
tracing = "0.1"
tracing-subscriber = { version = "0.3", features = ["env-filter"] }
