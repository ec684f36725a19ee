[package]
name = "game_chronicle"
version = "0.1.0"
edition = "2021"
publish = false

[dependencies]
toml = "*"
serde = { version = "*", features = ["derive"] }
rusqlite = { version = "*", features = ["bundled"] }
csv = "*"
sysinfo = "*"
walkdir = "*"
whoami = "*"
