[package]
name = "northmail"
version = "0.1.0"
edition = "2021"
publish = false

[dependencies]
base64 = "0.22"
lettre = { version = "0.11", default-features = false, features = ["builder", "smtp-transport", "tokio1", "tokio1-native-tls"] }
regex = "1"
urlencoding = "2"
async-std = "1"
async-native-tls = "0.5"
async-imap = "*"
imap-proto = "*"
futures = "0.3"
tokio = { version = "1", features = ["rt-multi-thread", "macros"] }
reqwest = { version = "0.12", features = ["json"] }
serde = { version = "1", features = ["derive"] }
serde_json = "1"
thiserror = "2"
