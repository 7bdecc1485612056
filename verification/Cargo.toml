[package]
name = "jukebox"
version = "0.1.0"
edition = "2021"
publish = false

[dependencies]
regex = "1"
zip = { version = "*", default-features = false, features = ["deflate"] }
tar = "*"
xz2 = "*"
qrcode = "*"
image = { version = "*", default-features = false, features = ["png"] }
serde = { version = "1", features = ["derive"] }
serde_json = "1"
axum = "*"
tokio = { version = "1", features = ["full"] }
reqwest = { version = "*", default-features = false, features = ["json", "stream", "rustls-tls"] }
rodio = "*"
mdns-sd = "*"
dirs = "*"
tower-http = { version = "*", features = ["fs"] }
futures-util = "*"
