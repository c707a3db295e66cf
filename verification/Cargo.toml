[package]
name = "event_log"
version = "0.1.0"
edition = "2021"
publish = false

[dependencies]
hex = "0.4"
sha1 = "0.10"
uuid = { version = "1", features = ["v4"] }
rusqlite = "*"
