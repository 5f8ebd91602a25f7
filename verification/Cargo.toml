[package]
name = "mdv"
version = "0.1.0"
edition = "2021"
publish = false

[dependencies]
pulldown-cmark = "0.12"
syntect = { version = "5", default-features = false, features = ["default-fancy"] }
urlencoding = "2"
serde_json = "1"
serde = { version = "1", features = ["derive"] }
anyhow = "1"
clap = { version = "4", features = ["derive"] }
uuid = { version = "1", features = ["v4"] }
open = "5"
tao = "*"
wry = "*"
