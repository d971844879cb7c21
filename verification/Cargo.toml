[package]
name = "ved"
version = "0.1.0"
edition = "2021"
publish = false

[dependencies]
anyhow = "*"
crossterm = "*"
syntect = { version = "*", default-features = false, features = ["default-fancy"] }
