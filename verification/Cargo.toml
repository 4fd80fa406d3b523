[package]
name = "dungeon"
version = "0.1.0"
edition = "2021"
publish = false

[dependencies]
serde_json = "1"
rand = "=0.8.5"
