[package]
name = "stately"
version = "0.3.0"
edition = "2021"
publish = false

[dependencies]
thiserror = "1"
