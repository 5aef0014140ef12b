[package]
name = "shaat"
version = "0.1.0"
edition = "2021"
publish = false

[dependencies]
rust-crypto = "=0.2.36"
actix = "=0.13.5"
actix-web = "=4.18.1"
actix-web-actors = "=4.3.1"
futures = "=0.3.34"
diesel = { version = "=2.3.14", features = ["sqlite", "r2d2"] }
juniper = "=0.16.2"
serde = { version = "=1.0.229", features = ["derive"] }
serde_derive = "=1.0.229"
serde_json = "=1.0.154"
lazy_static = "=1.5.1"
listenfd = "=1.0.2"
r2d2 = "=0.8.10"
env_logger = "=0.11.11"
cookie = { version = "=0.16.2", features = ["private", "key-expansion"] }
time = "=0.3.55"
