[package]
name = "irc_relay"
version = "0.1.0"
edition = "2021"
publish = false

[dependencies]
dashmap = "*"
uuid = { version = "*", features = ["v4"] }
