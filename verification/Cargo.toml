[package]
name = "diskvis"
version = "1.8.0"
edition = "2021"
publish = false

[dependencies]
arboard = "3"
chrono = "0.4"
clap = { version = "4.5", features = ["derive"] }
colored = "2.1"
crossterm = "0.28"
dirs = "5"
human-panic = "2"
indicatif = "0.17"
libc = "0.2"
ratatui = "0.29"
rayon = "1"
serde = { version = "1", features = ["derive"] }
serde_json = "1"
syntect = { version = "5", default-features = false, features = ["default-fancy"] }
toml = "0.8"
users = "0.11"
walkdir = "2.5"
