[package]
name = "async_web_client"
version = "0.1.0"
edition = "2021"
publish = false

[dependencies]
async-http-codec = "=0.8.0"
async-net = "=2.0.0"
async-ws = "=0.4.0"
futures = "=0.3.34"
futures-rustls = "=0.26.0"
http = "=1.5.0"
lazy_static = "=1.5.1"
ring = "=0.17.14"
rustls-pki-types = "=1.15.1"
serde = "=1.0.229"
serde_json = "=1.0.151"
webpki-roots = "=1.0.9"
