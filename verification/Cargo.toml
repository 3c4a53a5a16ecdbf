[package]
name = "linchain"
version = "0.1.0"
edition = "2021"
publish = false

[dependencies]
sha2 = "=0.10.9"
k256 = "=0.13.4"
hex = "=0.4.3"
bcs = "=0.1.6"
serde = { version = "1", features = ["derive"] }
serde_derive = "1"
serde_json = "1"
serde-jsonlines = "*"
chrono = { version = "0.4", features = ["serde"] }
libp2p = { version = "0.56", features = ["gossipsub", "mdns", "noise", "tcp", "yamux", "tokio", "macros"] }
tokio = { version = "1", features = ["full"] }
futures = "0.3"
redact = "*"
dotenvy = "0.15"
envy = "0.4"
tracing-subscriber = { version = "0.3", features = ["env-filter"] }
rand = "0.9"
thiserror = "2"
derive_more = { version = "2", features = ["display"] }
