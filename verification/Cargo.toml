[package]
name = "md_reader"
version = "0.1.0"
edition = "2021"
publish = false

[dependencies]
pulldown-cmark = { version = "=0.12.2", default-features = false, features = ["html"] }
dirs = "=5.0.1"
rfd = { version = "=0.14.1", default-features = false, features = ["xdg-portal", "async-std"] }
