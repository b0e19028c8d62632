[package]
name = "sasse"
version = "0.1.0"
edition = "2021"
publish = false

[dependencies]
chrono = { version = "0.4", default-features = false, features = ["std", "clock"] }
clap = { version = "4", features = ["derive"] }
color-eyre = "0.6"
eyre = "0.6"
libc = "0.2"
rusqlite = { version = "0.32", features = ["bundled"] }
toml = "0.8"
