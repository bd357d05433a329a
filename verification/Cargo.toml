[package]
name = "flipperzero_rpc_transport"
version = "0.1.0"
edition = "2021"
publish = false

[dependencies]
async-trait = "0.1"
bytes = "1"
futures-util = { version = "0.3", features = ["sink"] }
hex = "0.4"
integer-encoding = "*"
prost = "*"
tokio = { version = "1", features = ["io-util", "macros", "rt", "rt-multi-thread", "sync", "time"] }
tokio-serial = { version = "*", default-features = false }
tokio-util = { version = "0.7", features = ["codec"] }
