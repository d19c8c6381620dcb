[package]
name = "llpr"
version = "0.1.0"
edition = "2021"
publish = false

[dependencies]
inflate = "0.4"
thiserror = "1"
