[package]
name = "atri"
version = "0.1.0"
edition = "2021"
rust-version = "1.95"
publish = false

[dependencies]
teloxide = "*"
dptree = "*"
tokio = { version = "*", features = ["macros", "rt-multi-thread"] }
reqwest = "*"
