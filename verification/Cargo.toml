[package]
name = "terminalia"
version = "0.1.0"
edition = "2021"
publish = false

[dependencies]
rltk = { version = "=0.8.7", default-features = false, features = ["crossterm"] }
indexmap = "=2.14.2"
rand = "=0.9.5"
ratatui = "=0.29.0"
crossterm = "=0.28.1"
color-eyre = "=0.6.5"
simplelog = "=0.12.2"
log = "=0.4.34"
serde = { version = "=1.0.229", features = ["derive"] }
serde_json = "=1.0.154"
