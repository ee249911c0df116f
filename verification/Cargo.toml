[package]
name = "wifi_display"
version = "0.1.0"
edition = "2021"
publish = false

[dependencies]
base64ct = "=1.8.3"
bincode = { version = "=2.0.1", default-features = false, features = ["serde"] }
embassy-futures = "=0.1.2"
embassy-net = { version = "=0.6.0", features = ["tcp", "dns", "dhcpv4", "proto-ipv4", "medium-ethernet"] }
embassy-sync = "=0.6.2"
embassy-time = "=0.4.0"
embedded-io-async = "=0.6.1"
embedded-storage = "=0.3.2"
heapless = { version = "=0.8.0", features = ["serde"] }
log = "=0.4.35"
rand_core = { version = "=0.9.5", default-features = false }
rust-mqtt = { version = "=0.3.1", default-features = false }
serde = { version = "=1.0.229", default-features = false, features = ["derive"] }
serde-json-core = "=0.6.0"
static_cell = "=2.1.1"
thiserror = { version = "=2.0.21", default-features = false }
