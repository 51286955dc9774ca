[package]
name = "evtxgrep"
version = "0.1.0"
edition = "2021"
publish = false

[dependencies]
anyhow = "=1.0.104"
clap = { version = "=4.6.7", features = ["string"] }
convert_case = "=0.12.0"
evtx = "=0.12.3"
log = "=0.4.34"
serde_json = "=1.0.151"
simple_logger = "=5.2.0"
