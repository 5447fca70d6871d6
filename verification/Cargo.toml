[package]
name = "mtd"
version = "0.1.0"
edition = "2021"
publish = false

[dependencies]
aes-gcm = "0.9"
argon2 = "0.4"
chrono = "0.4"
clap = { version = "3", features = ["derive"] }
dirs = "4"
rand = "0.8"
rpassword = "7"
serde = { version = "1", features = ["derive"] }
serde_json = "1"
