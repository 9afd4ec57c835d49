[package]
name = "soma_observe"
version = "0.1.0"
edition = "2021"
publish = false

[dependencies]
anyhow = "=1.0.104"
axum = "=0.8.9"
chrono = { version = "=0.4.45", features = ["serde"] }
gloo-net = "=0.6.0"
js-sys = "=0.3.107"
leptos = { version = "=0.8.23", features = ["csr"] }
leptos_router = "=0.8.17"
lru = "=0.19.0"
opentelemetry-proto = { version = "=0.28.0", default-features = false, features = ["gen-tonic-messages", "metrics", "logs", "trace", "with-serde"] }
prost = "=0.13.5"
rust-embed = { version = "=8.13.0", features = ["interpolate-folder-path"] }
serde = { version = "=1.0.229", features = ["derive"] }
serde_json = "=1.0.154"
soma-infra = { version = "=0.2.0", features = ["config", "db", "http", "signal", "tracing", "web"] }
soma-schema = { version = "=0.4.0", default-features = false }
soma-ui = "=0.1.1"
sqlx = { version = "=0.8.6", default-features = false, features = ["runtime-tokio", "postgres", "chrono", "json"] }
thiserror = "=2.0.21"
tokio = { version = "=1.54.1", features = ["full"] }
tracing = "=0.1.44"
web-sys = { version = "=0.3.107", features = ["Storage", "Window"] }
