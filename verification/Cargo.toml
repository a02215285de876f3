[package]
name = "navdata"
version = "0.1.0"
edition = "2021"
publish = false

[dependencies]
anyhow = "1"
chrono = "0.4"
clap = { version = "4", features = ["derive"] }
configparser = "3"
csv = "1"
encoding_rs = "0.8"
log = "0.4"
pinyin = "0.10"
rayon = "1"
rusqlite = { version = "*", features = ["bundled"] }
simplelog = "*"
