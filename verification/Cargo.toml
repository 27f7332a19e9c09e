[package]
name = "crab_clean"
version = "0.2.0"
edition = "2021"
publish = false

[dependencies]
sha2 = "0.10"
chrono = "0.4"
humansize = "2"
ratatui = "0.29"
walkdir = "2"
trash = "5"
dirs = "6"
toml = "0.8"
serde = { version = "1", features = ["derive"] }
thiserror = "2"
clap = { version = "4", features = ["derive"] }
rayon = "1"
