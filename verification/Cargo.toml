[package]
name = "email_assistant"
version = "0.1.0"
edition = "2021"
publish = false

[dependencies]
regex = "1"
base64 = "0.13"
reqwest = { version = "0.11", features = ["blocking", "multipart"] }
serde = { version = "1", features = ["derive"] }
serde_json = "1"
imap = "2"
native-tls = "0.2"
lettre = "0.9"
uuid = { version = "0.8", features = ["v4"] }
log = "0.4"
env_logger = "0.7"
