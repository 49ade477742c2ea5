[package]
name = "apex"
version = "0.1.0"
edition = "2021"
publish = false

[dependencies]
futures = "0.3"
pulldown-cmark = "*"
raw-window-handle = "0.6"
serde_json = "1"
