[package]
name = "nurunuru_core"
version = "0.1.0"
edition = "2021"
publish = false

[dependencies]
url = "*"
serde_json = "*"
serde = { version = "*", features = ["derive"] }
thiserror = "*"
tokio = { version = "*", features = ["rt", "sync", "macros", "time"] }
nostr = "*"
nostr-sdk = "*"
nostr-ndb = "*"
