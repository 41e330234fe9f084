[package]
name = "degree_status"
version = "0.1.0"
edition = "2021"
publish = false

[dependencies]
actix-cors = "*"
actix-web = "4"
actix-web-lab = "*"
bson = "2"
dotenvy = "0.15"
env_logger = "*"
futures-util = "0.3"
log = "0.4"
mongodb = "2"
serde = { version = "1", features = ["derive"] }
