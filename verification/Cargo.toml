[package]
name = "uniloop"
version = "0.1.0"
edition = "2021"

[dependencies]
nix = { version = "=0.31.3", features = ["event", "socket", "net", "fs"] }
send_wrapper = "=0.6.0"
