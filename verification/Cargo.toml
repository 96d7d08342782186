[package]
name = "jinglemaker"
version = "0.1.0"
edition = "2021"
publish = false

[dependencies]
rand = "=0.8.8"
hound = "=3.5.1"
clap = { version = "=4.6.7", features = ["derive"] }
