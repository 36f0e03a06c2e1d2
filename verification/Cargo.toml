[package]
name = "flyway"
version = "0.2.0"
edition = "2021"
publish = false

[dependencies]
crc = "*"
mysql = { version = "*", default-features = false, features = ["minimal"] }
