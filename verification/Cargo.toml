[package]
name = "impact"
version = "0.1.0"
edition = "2021"
publish = false

[dependencies]
id3 = "*"
path-absolutize = "*"
rodio = "*"
rusqlite = { version = "*", features = ["bundled"] }
repl-rs = "*"
color-eyre = "*"
