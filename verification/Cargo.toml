[package]
name = "asof_window"
version = "0.1.0"
edition = "2021"
publish = false

[dependencies]
itertools = "*"
indexmap = "*"
serde = { version = "*", features = ["derive"] }
