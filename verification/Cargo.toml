[package]
name = "staff_lib"
version = "0.1.0"
edition = "2021"
publish = false

[dependencies]
num-traits = "0.2"
uuid = { version = "1", features = ["v4"] }
