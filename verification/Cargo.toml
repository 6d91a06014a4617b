[package]
name = "zqlu"
version = "0.1.0"
edition = "2021"
publish = false

[dependencies]
codeckit = "*"
crc = "3"
bytes = "1"
ssh-key = { version = "0.6", features = ["alloc", "std", "ecdsa", "p256", "p384", "p521"] }
p256 = { version = "0.13", features = ["arithmetic", "pkcs8", "pem"] }
p384 = { version = "0.13", features = ["arithmetic", "pkcs8", "pem"] }
p521 = { version = "0.13", features = ["arithmetic", "pkcs8", "pem"] }
primeorder = "0.13"
thiserror = "2"
anyhow = "1"
clap = { version = "4", features = ["derive"] }
