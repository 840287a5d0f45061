[package]
name = "vlam"
version = "0.1.0"
edition = "2021"

[dependencies]
palette = { version = "0.7", default-features = false, features = ["std"] }
