[package]
name = "etf_codec"
version = "0.1.0"
edition = "2021"
publish = false

[dependencies]
tokio = { version = "*", features = ["rt", "io-util", "macros"] }
num = "*"
thiserror = "*"
byteorder = "*"
libflate = "*"
async-recursion = "*"
