[package]
name = "curl_sponge"
version = "0.1.0"
edition = "2021"
publish = false

[dependencies]
async-trait = "*"
web-sys = { version = "*", features = ["Storage"] }
