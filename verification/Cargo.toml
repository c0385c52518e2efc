[package]
name = "procmon"
version = "0.1.0"
edition = "2021"
publish = false

[dependencies]
chrono = "0.4"
dashmap = "5"
flume = "0.11"
rand = "0.8"
rayon = "1"
