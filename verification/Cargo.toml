[package]
name = "shrinkpath"
version = "0.1.2"
edition = "2021"
publish = false

[dependencies]
clap = { version = "4", features = ["derive"] }
