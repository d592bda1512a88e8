[package]
name = "quote_feed"
version = "0.1.0"
edition = "2021"
publish = false

[dependencies]
pcap-parser = { version = "=0.17.0", features = ["data"] }
