[package]
name = "chess_relay"
version = "0.1.0"
edition = "2021"
publish = false

[dependencies]
hyper = "0.10"
iron = "0.6"
mount = "0.4"
rustc-serialize = "0.3"
staticfile = "0.5"
websocket = { version = "0.27", default-features = false, features = ["sync"] }
