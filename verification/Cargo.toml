[package]
name = "rdb"
version = "0.1.1"
edition = "2021"
publish = false

[dependencies]
base64 = "0.21"
regex = "1"
serde = { version = "1", features = ["derive"] }
serde_json = "1"
toml = "0.8"
clap = "4"
chrono = "0.4"
colored = "2"
same-file = "1"
thiserror = "1"

[dev-dependencies]
bincode = "1.3"
