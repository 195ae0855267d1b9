[package]
name = "toku"
version = "0.1.0"
edition = "2021"
publish = false

[dependencies]
bytecount = "=0.6.9"
memchr = "=2.8.3"
bstr = "=1.13.1"
clap = { version = "=4.6.7", features = ["derive"] }
tokio = { version = "=1.54.1", features = ["fs", "rt", "io-util", "sync"] }
ropey = "=1.6.1"
crossterm = { version = "0.27", features = ["event-stream"] }
futures = "0.3"
fuzzy-matcher = "0.3"
circular-buffer = "0.1"
slotmap = "1"

[dev-dependencies]
rand = { version = "=0.8.8", features = ["small_rng"] }
