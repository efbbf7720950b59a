[package]
name = "eva_mcp"
version = "0.1.0"
edition = "2021"
publish = false

[dependencies]
rustls = { version = "0.23", default-features = false, features = ["std", "ring", "tls12"] }
rustls-native-certs = "0.8"
rustls-pemfile = "2"
zeroize = "1"
