[package]
name = "many"
version = "0.1.0"
edition = "2021"
publish = false

[dependencies]
sha2 = "*"
p256 = "*"
getrandom = "*"
base64 = "*"
url = "*"
clap = { version = "*", features = ["derive"] }
