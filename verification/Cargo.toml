[package]
name = "boulder_relay"
version = "0.1.0"
edition = "2021"
publish = false

[dependencies]
relm4 = { version = "0.8", default-features = false, features = ["macros"] }
irc = "1"
tokio = { version = "1", features = ["rt-multi-thread"] }
futures = "0.3"
