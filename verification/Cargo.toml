[package]
name = "boardcast"
version = "0.1.0"
edition = "2021"
publish = false

[dependencies]
tl = "*"
image = "*"
reqwest = { version = "*", default-features = false, features = ["blocking", "rustls-tls"] }
serde = { version = "*", features = ["derive"] }
serde_json = "*"
