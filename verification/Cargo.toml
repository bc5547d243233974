[package]
name = "tracker_core"
version = "0.1.0"
edition = "2021"
publish = false

[dependencies]
url = "*"
time = "*"
hyper = { version = "*", features = ["http1", "server"] }
