[package]
name = "codemao_core"
version = "0.1.0"
edition = "2021"
publish = false

[dependencies]
fastrand = "2"
rand = "*"
serde = { version = "1", features = ["derive"] }
serde_json = "1"
tungstenite = { version = "*", features = ["rustls-tls-webpki-roots"] }
http = "1"
url = "2"
log = "0.4"
