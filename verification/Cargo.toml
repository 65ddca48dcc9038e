[package]
name = "baccy"
version = "0.1.0"
edition = "2021"
publish = false

[dependencies]
clap = { version = "4", features = ["derive"] }
colored = "*"
crossbeam = "0.8"
filetime = "0.2"
glob = "0.3"
indicatif = "*"
serde = { version = "1", features = ["derive"] }
serde_json = "1"
sysinfo = "*"
walkdir = "2"
