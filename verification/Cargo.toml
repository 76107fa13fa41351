[package]
name = "beckon"
version = "0.1.0"
edition = "2021"
publish = false

[dependencies]
async-channel = "2"
gdk-pixbuf = "0.20"
gtk4 = "0.9"
serde = { version = "1", features = ["derive"] }
serde_json = "1"
toml = "0.8"
ureq = "2"
