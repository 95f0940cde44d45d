[package]
name = "jas"
version = "0.1.0"
edition = "2021"
publish = false

[dependencies]
chrono = "=0.4.45"
sha2 = "=0.10.9"
hex = "=0.4.3"
base64 = "=0.22.1"
zip = { version = "=2.6.1", default-features = false, features = ["deflate"] }
plist = "=1.10.3"
uuid = { version = "=1.29.0", features = ["v4"] }
serde = { version = "=1.0.229", features = ["derive"] }
serde_json = "=1.0.154"
anyhow = "=1.0.104"
tracing = "=0.1.44"
tokio = { version = "=1.54.1", features = ["full"] }
sqlx = { version = "=0.8.6", default-features = false, features = ["sqlite", "runtime-tokio"] }
idevice = { version = "=0.1.68", default-features = false, features = ["ring", "remote_pairing", "rsd", "tcp", "tunnel_tcp_stack", "installation_proxy", "afc", "misagent"] }
leptos = { version = "=0.8.23", features = ["ssr"] }
leptos_axum = "=0.8.10"
leptos_meta = "=0.8.7"
leptos_router = "=0.8.17"
axum = "=0.8.9"
tracing-subscriber = { version = "=0.3.23", features = ["env-filter"] }
toml = "=1.1.8"
ring = "=0.17.14"
