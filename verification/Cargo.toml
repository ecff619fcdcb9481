[package]
name = "code_highlight"
version = "0.1.0"
edition = "2021"
publish = false

[dependencies]
syntect = { version = "4.6", default-features = false, features = ["default-fancy"] }
tera = { version = "1", default-features = false }
