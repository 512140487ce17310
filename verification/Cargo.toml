[package]
name = "vault_inject"
version = "0.1.0"
edition = "2021"
publish = false

[dependencies]
clap = { version = "4", features = ["derive"] }
futures = "0.3"
regex = "1"
tokio = { version = "1", features = ["io-util", "macros", "process", "rt", "rt-multi-thread"] }
vaultrs = "*"
