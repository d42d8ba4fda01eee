[package]
name = "wildside"
version = "0.1.0"
edition = "2021"
publish = false

[dependencies]
url = "2"
serde = { version = "1", features = ["derive"] }
serde_json = "1"
simd-json = "*"
bincode = "1"
camino = "1"
cap-std = { version = "*", features = ["fs_utf8"] }
clap = { version = "4", features = ["derive"] }
rusqlite = { version = "*", features = ["bundled"] }
osmpbf = "*"
geo = { version = "*", default-features = false }
reqwest = { version = "*", default-features = false, features = ["json", "stream"] }
tokio = { version = "1", features = ["rt", "rt-multi-thread", "macros"] }
tokio-util = { version = "*", features = ["io", "io-util"] }
futures-util = "*"
async-trait = "*"
thiserror = "*"
tempfile = "*"
