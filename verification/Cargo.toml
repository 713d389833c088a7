[package]
name = "webserve"
version = "0.1.0"
edition = "2021"
publish = false

[dependencies]
chrono = "0.4"
kamadak-exif = "0.5"
glob = "0.3"
