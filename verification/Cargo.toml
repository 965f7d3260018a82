[package]
name = "cornucopia"
version = "0.1.0"
edition = "2021"

[dependencies]
clap = { version = "3.2", features = ["derive"] }
postgres = "0.19"
time = "0.3"
