[package]
name = "delta_file_ingest"
version = "0.1.0"
edition = "2021"
publish = false

[dependencies]
anyhow = "*"
async-trait = "*"
bytes = "*"
clap = { version = "*", features = ["derive"] }
futures = "*"
humantime = "*"
notify = "*"
object_store = "*"
rocksdb = { version = "*", default-features = false }
serde = { version = "*", features = ["derive"] }
serde_json = "*"
tokio = { version = "*", features = ["rt-multi-thread", "macros", "time", "sync"] }
