[package]
name = "tunrs"
version = "0.1.2"
edition = "2021"
publish = false

[dependencies]
async_smux = "*"
tokio = { version = "1", features = ["io-util", "macros", "net", "rt-multi-thread", "signal", "time"] }
