[package]
name = "play"
version = "0.1.0"
edition = "2021"
publish = false

[dependencies]
url = "=2.5.8"
aes = "=0.8.4"
cbc = { version = "=0.1.2", features = ["alloc"] }
cipher = { version = "=0.4.4", features = ["alloc"] }
serde = { version = "=1.0.229", features = ["derive"] }
serde_json = "=1.0.154"
clap = "=4.6.7"
tiny_http = "=0.12.0"
reqwest = { version = "=0.12.28", default-features = false, features = ["blocking"] }

[dev-dependencies]
regex = "1"
