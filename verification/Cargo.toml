[package]
name = "fluvio"
version = "0.1.0"
edition = "2021"
publish = false

[dependencies]
bytes = "=1.12.1"
crc32c = "=0.6.9"
fluvio-future = { version = "=0.3.18", features = ["net"] }
futures-util = "=0.3.34"
structopt = "=0.3.26"
tracing = "=0.1.44"
