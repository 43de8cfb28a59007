[package]
name = "bugle"
version = "0.1.0"
edition = "2021"
publish = false

[dependencies]
md5 = "=0.8.1"
flate2 = "=1.1.10"
ucs2 = "=0.3.3"
rust-ini = "=0.21.3"
regex = "=1.13.1"
shlex = "=2.0.1"
anyhow = "=1.0.104"
serde = { version = "=1.0.229", features = ["derive"] }
serde_json = "=1.0.154"
pico-args = "=0.5.0"
network-interface = "=2.0.5"

[dev-dependencies]
nom = "7"
