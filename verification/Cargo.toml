[package]
name = "minreq"
version = "0.1.0"
edition = "2021"
publish = false

[dependencies]
rustls = "0.19"
serde = "1"
serde_json = "1"
webpki = "0.21"
webpki-roots = "0.21"
