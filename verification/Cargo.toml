[package]
name = "redisjson"
version = "0.1.0"
edition = "2021"
publish = false

[dependencies]
serde_json = { version = "=1.0.154", features = ["preserve_order"] }
bson = "=0.14.1"
redis-module = "=2.0.8"
