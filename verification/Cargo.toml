[package]
name = "bz_downloader"
version = "0.1.0"
edition = "2021"
publish = false

[dependencies]
tokio = { version = "1", features = ["rt-multi-thread", "sync", "time", "macros"] }
m3u8-rs = "*"
reqwest = { version = "0.12", default-features = false, features = ["rustls-tls"] }
directories = "*"
