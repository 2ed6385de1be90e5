[package]
name = "analysis"
version = "0.1.0"
edition = "2021"
publish = false

[dependencies]
bitflags = "1.3"
bumpalo = "3"
dbg-pls = { version = "*", features = ["derive"] }
rustc-hash = "1.1"
