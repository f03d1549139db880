[package]
name = "agentview"
version = "0.1.0"
edition = "2021"
publish = false

[dependencies]
cfb = "*"
gtk4 = { version = "*", features = ["v4_14"] }
libadwaita = { version = "*", features = ["v1_5"] }
