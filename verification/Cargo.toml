[package]
name = "voice_frontend"
version = "0.1.0"
edition = "2021"
publish = false

[dependencies]
base64 = "=0.23.1"
url = "=2.5.8"
png = "=0.18.1"
regex = "*"
