[package]
name = "bftp"
version = "0.1.0"
edition = "2021"
publish = false

[dependencies]
anyhow = "1"
indicatif = "0.17"
md5 = "0.7"
regex = "1"
reqwest = { version = "0.12", default-features = false, features = ["json", "multipart", "rustls-tls"] }
rustyline = "14"
serde = { version = "1", features = ["derive"] }
serde_json = "1"
serde_repr = "0.1"
thiserror = "1"
tokio = { version = "1", features = ["rt-multi-thread", "macros"] }
urlencoding = "2"
