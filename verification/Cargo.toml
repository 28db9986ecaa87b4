[package]
name = "mjolnir_builder"
version = "1.1.0"
edition = "2021"
publish = false

[dependencies]
base64 = "0.22"
quick-xml = "*"
serde = { version = "1", features = ["derive"] }
serde_json = "1"
thiserror = "*"
uuid = { version = "1", features = ["v4"] }
zip = { version = "*", default-features = false, features = ["deflate"] }
tauri = { version = "2", default-features = false }
