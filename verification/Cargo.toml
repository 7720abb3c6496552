[package]
name = "mailsync"
version = "0.1.0"
edition = "2021"
publish = false

[dependencies]
base64 = "*"
mail-parser = "*"
imap = "*"
native-tls = "*"
lettre = "*"
serde = { version = "*", features = ["derive"] }
serde_json = "*"
