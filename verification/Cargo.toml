[package]
name = "spanner_kv"
version = "0.1.0"
edition = "2021"
publish = false

[dependencies]
chrono = { version = "*", default-features = false, features = ["alloc"] }
axum = "*"
tokio = { version = "*", features = ["macros", "rt-multi-thread", "net"] }
serde = { version = "*", features = ["derive"] }
serde_json = "*"
anyhow = "*"
dotenvy = "*"
tracing = "*"
tracing-subscriber = "*"
tower-http = { version = "*", features = ["trace"] }
utoipa = { version = "*", features = ["axum_extras"] }
gcloud-spanner = "*"
gcloud-googleapis = "*"
gcloud-gax = "*"
