[package]
name = "ants"
version = "0.1.0"
edition = "2021"
publish = false

[dependencies]
prost = "0.13"
prost-types = "0.13"
uuid = { version = "1", features = ["v4"] }
rand = "0.8"
fxhash = "0.2"
serde = { version = "1", features = ["derive"] }
serde_json = "1"
tokio = { version = "1", features = ["full"] }
clap = { version = "4", features = ["derive"] }
socket2 = { version = "0.5", features = ["all"] }
deadqueue = "0.2"
futures = "0.3"
thiserror = "1"
axum = "0.7"
tonic = "0.12"
