[package]
name = "sensor_station"
version = "0.1.0"
edition = "2021"
publish = false

[dependencies]
anyhow = "1"
axum = "0.8"
bit-vec = "0.6"
chrono = "0.4"
prost = "0.13"
reqwest = { version = "0.12", default-features = false, features = ["json", "rustls-tls"] }
rustls = { version = "0.23", default-features = false, features = ["ring", "std", "tls12", "logging"] }
rustls-native-certs = "0.8"
serde = { version = "1", features = ["derive"] }
serde_json = "1"
tokio = { version = "1", features = ["full"] }
tokio-postgres = { version = "0.7", features = ["with-bit-vec-0_6", "with-chrono-0_4"] }
tokio-postgres-rustls = "0.13"
tower-http = { version = "0.6", features = ["fs"] }
