[package]
name = "hvat_backend"
version = "0.1.0"
edition = "2021"
publish = false

[dependencies]
anyhow = "1"
async-trait = "0.1"
axum = { version = "0.8", features = ["ws", "multipart"] }
clap = { version = "4", features = ["derive", "env"] }
futures = "0.3"
image = { version = "0.25", default-features = false, features = ["png", "jpeg", "gif", "webp", "bmp", "tiff"] }
log = "0.4"
ndarray = "0.16"
ndarray-npy = { version = "0.9", default-features = false }
rayon = "1"
serde = { version = "1", features = ["derive"] }
serde_json = "1"
thiserror = "2"
tokio = { version = "1", features = ["full"] }
tracing = "0.1"
uuid = { version = "1", features = ["v4"] }
zip = { version = "2", default-features = false }
