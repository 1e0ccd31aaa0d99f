[package]
name = "sst_file"
version = "0.1.0"
edition = "2021"
publish = false

[dependencies]
object_store = { version = "0.5", default-features = false }
snafu = "0.6"
tokio = { version = "1", features = ["rt", "sync", "time"] }
