[package]
name = "upsurge"
version = "0.1.0"
edition = "2021"
publish = false

[dependencies]
futures = "0.3"
getopts = "0.2"
openssh = "*"
regex = "1"
tokio = { version = "1", features = ["rt-multi-thread", "macros"] }
