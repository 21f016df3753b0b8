[package]
name = "gestalt"
version = "0.1.0"
edition = "2021"
publish = false

[dependencies]
font8x8 = { version = "=0.3.1", default-features = false, features = ["unicode"] }
serde = { version = "=1.0.229", features = ["derive"] }
serde_json = "=1.0.154"
thiserror = "=2.0.21"
parking_lot = "=0.12.5"
portable-pty = "=0.9.0"
vt100 = "=0.18.1"
tokio = { version = "=1.54.1", default-features = false, features = ["sync"] }
alacritty_terminal = "*"
pulldown-cmark = { version = "*", default-features = false, features = ["html"] }
arboard = { version = "*", default-features = false }
