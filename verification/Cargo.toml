[package]
name = "clix"
version = "0.1.0"
edition = "2021"
publish = false

[dependencies]
clap = { version = "=4.6.7", features = ["string"] }
toml = "=1.1.6"
log = "=0.4.34"
log4rs = "=1.4.0"
