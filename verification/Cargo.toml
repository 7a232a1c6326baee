[package]
name = "qinpel_srv"
version = "0.1.0"
edition = "2021"
publish = false

[dependencies]
actix-files = "0.5"
actix-web = "3"
base64 = "0.13"
clap = "3"
futures = "0.3"
rand = "0.8"
serde = { version = "1", features = ["derive"] }
serde_json = "1"
sqlx = { version = "0.5", default-features = false, features = ["any", "sqlite", "runtime-actix-rustls"] }
