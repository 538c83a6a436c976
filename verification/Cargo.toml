[package]
name = "maelstrom"
version = "0.1.0"
edition = "2021"
publish = false

[dependencies]
evercrypt = "=0.0.11"
hpke-rs = "=0.8.0"
hpke-rs-crypto = "=0.8.0"
rand = "=0.8.8"
rayon = "=1.12.0"
uuid = "=0.8.2"
