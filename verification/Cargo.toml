[package]
name = "filehost"
version = "0.1.0"
edition = "2021"
publish = false

[dependencies]
google-authenticator = "0.4"
percent-encoding = "2"
rand = "0.8"
qrcode = "*"
envconfig = "*"
rocket = { version = "0.5", features = ["json"] }
rocket_cors = "0.6"
