[package]
name = "ai_cup_22"
version = "0.1.0"
edition = "2021"
publish = false

[dependencies]
itertools = "*"
trans = "*"
