[package]
name = "term_mux"
version = "0.1.0"
edition = "2021"
publish = false

[dependencies]
portable-pty = "*"
uuid = { version = "*", features = ["v4"] }
