[package]
name = "wherefrom"
version = "0.1.0"
edition = "2021"
publish = false

[dependencies]
mdquery-rs = "*"
objc2-core-foundation = "*"

[dev-dependencies]
uuid = { version = "1", features = ["v4"] }
