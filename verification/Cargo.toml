[package]
name = "drill"
version = "0.1.0"
edition = "2021"
publish = false

[dependencies]
axum = "*"
maud = "*"
tokio = { version = "*", features = ["rt-multi-thread", "macros", "net"] }
