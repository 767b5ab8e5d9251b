[package]
name = "lsapp"
version = "0.1.0"
edition = "2021"
publish = false

[dependencies]
clap = { version = "*", features = ["env"] }
color-eyre = { version = "*", default-features = false }
eyre = "*"
shellexpand = "*"
thiserror = "*"
