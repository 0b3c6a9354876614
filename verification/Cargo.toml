[package]
name = "clipcut"
version = "0.1.0"
edition = "2021"
publish = false

[dependencies]
calamine = "=0.36.1"
threadpool = "*"
tokio = { version = "*", features = ["full"] }
youtube_dl = { version = "=0.10.0", features = ["tokio", "downloader-rustls-tls"] }
