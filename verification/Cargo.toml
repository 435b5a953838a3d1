[package]
name = "serial2_tokio"
version = "0.1.0"
edition = "2021"
publish = false

[dependencies]
libc = "*"
serial2 = "*"
tokio = { version = "*", features = ["net", "io-util"] }
