[package]
name = "medialibrary"
version = "0.1.0"
edition = "2021"
publish = false

[dependencies]
base64 = "*"
chrono = "*"
urlencoding = "*"
fluent-uri = "*"
serde = { version = "*", features = ["derive"] }
serde_json = "*"
walkdir = "*"
xdg-user = "*"
allmytoes = "*"
