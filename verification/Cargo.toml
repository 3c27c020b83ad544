[package]
name = "mergezip"
version = "0.1.0"
edition = "2021"

[dependencies]
clap = { version = "4", features = ["derive"] }
glob = "0.3"
libc = "0.2"
zip = { version = "0.6", default-features = false, features = ["deflate"] }
