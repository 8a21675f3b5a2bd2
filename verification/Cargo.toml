[package]
name = "ethlambda"
version = "0.1.0"
edition = "2021"
publish = false

[dependencies]
async-trait = "0.1"
clap = { version = "4", default-features = false, features = ["derive", "help", "std", "usage"] }
ethereum_ssz = "*"
eyre = { version = "0.6", default-features = false }
hex = "0.4"
libp2p = { version = "0.55", default-features = false, features = ["request-response"] }
rand = "0.8"
reqwest = { version = "0.12", default-features = false }
serde = { version = "1", features = ["derive"] }
serde_yaml_ng = "0.10"
snap = "1"
ssz_types = "*"
thiserror = "2"
tokio = { version = "1", features = ["macros", "rt-multi-thread", "signal", "sync", "time"] }
tracing = "0.1"
tracing-subscriber = { version = "0.3", features = ["env-filter"] }
tree_hash = "*"
