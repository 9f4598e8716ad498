[package]
name = "lson"
version = "0.1.0"
edition = "2021"
publish = false

[dependencies]
base64 = "0.22"
clap = { version = "4", features = ["cargo"] }
colored = "2"
dotenvy = "0.15"
regex = "1"
toml = "0.8"
