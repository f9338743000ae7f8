[package]
name = "trader_scout"
version = "0.1.0"
edition = "2021"
publish = false

[dependencies]
bs58 = "0.5"
alloy-primitives = { version = "1", default-features = false, features = ["std"] }
serde = { version = "1", features = ["derive"] }
serde_json = "1"
toml = "0.8"
thiserror = "2"
clap = { version = "4", features = ["derive"] }
tokio = { version = "1", features = ["rt-multi-thread", "macros"] }
futures = "0.3"
tokio-util = "0.7"
async-trait = "0.1"
rusqlite = { version = "*", features = ["bundled"] }
