[package]
name = "ram_tui"
version = "1.0.0"
edition = "2021"
publish = false

[dependencies]
regex = "1"
unicode-width = "0.2"
serde = { version = "1", features = ["derive"] }
serde_json = "1"
clap = { version = "4", features = ["derive"] }
libc = "0.2"
