[package]
name = "enkronio"
version = "0.1.0"
edition = "2021"
publish = false

[dependencies]
pulldown-cmark = "0.9"
anyhow = "1"
chrono = "0.4"
clap = { version = "4", features = ["derive"] }
regex = "1"
rpassword = "7"
serde = { version = "1", features = ["derive"] }
serde_json = "1"
walkdir = "2"
aes-gcm = "0.10"
argon2 = "0.5"
base64 = "0.21"
rand = "0.8"
sha2 = "0.10"
once_cell = "1"
