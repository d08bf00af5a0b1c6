[package]
name = "work"
version = "0.1.0"
edition = "2021"
publish = false

[dependencies]
git2 = "0.20"
chrono = "0.4"
rayon = "1"
clap = { version = "4", features = ["derive"] }
libc = "0.2"

[dev-dependencies]
tempfile = "3"
