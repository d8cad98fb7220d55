[package]
name = "xsm"
version = "0.1.0"
edition = "2021"
publish = false

[dependencies]
anyhow = "=1.0.104"
bytes = "=1.12.1"
fred = "=6.3.2"
gethostname = "=0.4.3"
rand = "=0.8.8"

[dev-dependencies]
msgpacker = "*"
