[package]
name = "realm"
version = "0.1.0"
edition = "2021"
publish = false

[dependencies]
axum = "0.7"
chrono = "0.4"
clap = "4"
fern = "*"
futures = "0.3"
headers = "0.4"
kaminari = "*"
log = "0.4"
realm_io = "*"
serde = { version = "1", features = ["derive"] }
serde_json = "1"
tokio = { version = "1", features = ["full"] }
toml = "*"
uuid = { version = "1", features = ["v4"] }
