[package]
name = "indy_wallet"
version = "0.1.0"
edition = "2021"
publish = false

[dependencies]
url = "1.7"
serde = { version = "1", features = ["derive"] }
serde_json = "1"
time = "0.1"
base64 = "0.13"
rand = "0.7"
libc = "0.2"
reqwest = { version = "0.11", default-features = false, features = ["blocking", "json"] }
rusqlcipher = "*"
