[package]
name = "s3_server"
version = "0.2.0"
edition = "2021"
publish = false

[dependencies]
sha2 = "*"
hmac = "*"
