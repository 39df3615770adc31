[package]
name = "replog"
version = "0.1.0"
edition = "2021"
publish = false

[dependencies]
rand = "0.8"
uuid = { version = "1", features = ["v4"] }
tokio = { version = "1", features = ["full"] }
serde = { version = "1", features = ["derive"] }
serde_json = "1"
actix-web = "4"
log = "0.4"
log4rs = "1"
async-channel = "2"
futures = "0.3"
