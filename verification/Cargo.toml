[package]
name = "ws"
version = "0.1.0"
edition = "2021"
publish = false

[dependencies]
url = "=2.5.8"
openssl = "=0.10.81"
log = "=0.4.34"
mio = { version = "=1.2.4", features = ["os-poll", "net"] }

[dev-dependencies]
base64 = "=0.23.1"
