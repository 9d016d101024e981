[package]
name = "lineage_lite"
version = "0.1.0"
edition = "2021"
publish = false

[dependencies]
clap = { version = "4", features = ["derive"] }
comfy-table = "7"
petgraph = "0.6"
regex = "1"
rusqlite = { version = "*", features = ["bundled"] }
serde = { version = "1", features = ["derive"] }
serde_json = "1"
sqlparser = "*"
thiserror = "*"
walkdir = "2"

[dev-dependencies]
tempfile = "3"
