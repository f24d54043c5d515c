[package]
name = "ovl"
version = "0.1.0"
edition = "2021"
publish = false

[dependencies]
arboard = { version = "3", default-features = false }
clap = { version = "4", features = ["derive"] }
colored = "*"
dirs = "*"
fastnbt = "2"
flate2 = "1"
inquire = "*"
keyring = { version = "3", features = ["apple-native", "windows-native", "linux-native"] }
open = "5"
open_launcher = "*"
reqwest = { version = "0.12", default-features = false, features = ["blocking", "json", "rustls-tls"] }
serde = { version = "1", features = ["derive"] }
serde_json = "1"
sha256 = { version = "1", default-features = false }
tokio = { version = "1", features = ["rt-multi-thread", "time"] }
zip = { version = "2", default-features = false, features = ["deflate"] }
