[package]
name = "handlr"
version = "0.1.0"
edition = "2021"
publish = false

[dependencies]
freedesktop-desktop-entry = "=0.8.3"
mime = "=0.3.17"
mime-db = "=1.8.0"
xdg = "=3.0.0"
xdg-mime = "=0.4.0"
regex = "=1.13.1"
shlex = "=2.0.1"
url = "=2.5.8"
serde = { version = "=1.0.229", features = ["derive"] }
serde_json = "=1.0.151"
confy = "=2.0.0"
dirs-next = "=2.0.0"
