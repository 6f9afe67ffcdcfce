[package]
name = "torrent_peer"
version = "0.1.0"
edition = "2021"
publish = false

[dependencies]
bendy = "0.3"
bincode = "1.3"
bitlab = "1"
futures = "0.3"
hex = "0.4"
sha1_smol = "1"
thiserror = "1"
tokio = { version = "1", features = ["io-util", "macros", "net", "rt-multi-thread", "sync", "time"] }
tokio-util = { version = "0.7", features = ["codec"] }
tracing = "0.1"
