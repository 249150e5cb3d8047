[package]
name = "bezier_emporium"
version = "0.1.0"
edition = "2021"
publish = false

[dependencies]
itertools = "=0.15.0"
anyhow = "=1.0.104"
clap = { version = "=4.6.7", features = ["derive"] }
serde = { version = "=1.0.229", features = ["derive"] }
serde_json = "=1.0.154"
typetag = "=0.2.23"
sdl2 = "=0.38.0"
rfd = { version = "=0.17.2", default-features = false, features = ["xdg-portal"] }
