[package]
name = "wg_easy_rs"
version = "0.1.0"
edition = "2021"
publish = false

[dependencies]
base64 = "*"
rand = "0.8"
x25519-dalek = { version = "2", features = ["static_secrets"] }
wireguard-control = "*"
rustables = "*"
bcrypt = "*"
totp-rs = "*"
uuid = { version = "*", features = ["v4"] }
axum = "*"
tokio = { version = "*", features = ["rt-multi-thread", "macros", "signal", "net"] }
sqlx = { version = "*", features = ["runtime-tokio", "sqlite", "migrate"] }
serde = { version = "*", features = ["derive"] }
serde_json = "*"
anyhow = "*"
thiserror = "*"
tracing = "*"
tracing-subscriber = { version = "*", features = ["env-filter"] }
tower-http = { version = "*", features = ["fs", "trace"] }
metrics-exporter-prometheus = "*"
cookie = "*"
chrono = "*"
ipnet = "*"
rtnetlink = "0.14"
futures = "*"
qrcode = { version = "*", default-features = false, features = ["svg"] }
