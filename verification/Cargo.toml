[package]
name = "irc_transport"
version = "0.1.0"
edition = "2021"
publish = false

[dependencies]
semver = "1"
serde = { version = "1", features = ["derive"] }
tokio = { version = "1", features = ["rt-multi-thread", "net", "io-util", "sync", "macros", "time"] }
native-tls = "0.2"
tokio-native-tls = "0.3"
reqwest = { version = "0.12", default-features = false, features = ["json", "native-tls"] }
