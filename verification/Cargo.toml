[package]
name = "woxirdle"
version = "0.1.0"
edition = "2021"
publish = false

[dependencies]
colored = "*"
crossterm = "*"
rand = "0.8"
serde_json = "1"
