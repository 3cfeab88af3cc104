[package]
name = "monoio-ws"
version = "0.1.0"
edition = "2021"
publish = false

[dependencies]
base64 = "0.22"
bumpalo = "3"
bytes = "1"
http = "1"
monoio = "0.2"
monoio-rustls = "0.4"
rand = { version = "0.9", features = ["small_rng"] }
rustls = { version = "0.23", default-features = false, features = ["ring", "std", "tls12"] }
sha1 = "0.10"
simdutf8 = "0.1"
thiserror = "2"
webpki-roots = "0.26"
