[package]
name = "amethyst_network"
version = "0.1.0"
edition = "2021"
publish = false

[dependencies]
amethyst_core = "=0.15.3"
amethyst_error = "=0.15.3"
bincode = "=1.3.3"
byteorder = "=1.5.0"
log = "=0.4.34"
mio = { version = "=0.8.11", features = ["net", "os-poll"] }
serde = { version = "=1.0.229", features = ["derive"] }
shrev = "=1.1.3"
tokio-core = "=0.1.18"
uuid = { version = "=1.29.0", features = ["v4"] }
