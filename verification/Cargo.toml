[package]
name = "eve_proto"
version = "0.1.0"
edition = "2021"
publish = false

[dependencies]
fern = { version = "*", features = ["colored"] }
humantime = "*"
log = "*"
tokio = { version = "*", features = ["io-util", "macros", "net", "rt", "rt-multi-thread", "sync"] }
ucs2 = "*"
