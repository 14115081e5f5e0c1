[package]
name = "pregate"
version = "0.1.0"
edition = "2021"
publish = false

[dependencies]
regex = "1"
ndarray = "0.15"
serde = { version = "1", features = ["derive"] }
toml = "0.8"
chrono = "0.4"
env_logger = "0.10"
log = "0.4"
uuid = { version = "1", features = ["v4"] }
actix-web = { version = "4", features = ["rustls"] }
actix-files = "0.6"
actix-http = "3"
actix-web-lab = "0.19"
rustls = "0.20"
rustls-pemfile = "1"
reqwest = { version = "0.11", default-features = false, features = ["rustls-tls"] }
