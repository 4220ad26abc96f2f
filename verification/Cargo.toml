[package]
name = "group_chat"
version = "0.1.0"
edition = "2021"
publish = false

[dependencies]
uuid = { version = "1", features = ["v4"] }
bcrypt = "*"
actix = "*"
actix-web = "4"
actix-web-actors = "4"
serde = { version = "1", features = ["derive"] }
serde_json = "1"
jsonwebtoken = "*"
chrono = "0.4"
