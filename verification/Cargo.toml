[package]
name = "fstn"
version = "0.1.0"
edition = "2021"
publish = false

[dependencies]
backhand = "*"
clap = { version = "4", features = ["derive"] }
dirs = "4"
fuse = "0.3"
libc = "0.2"
reqwest = { version = "0.11", features = ["blocking", "json", "multipart"] }
serde = { version = "1", features = ["derive"] }
serde_derive = "1"
serde_json = "1"
serde_repr = "0.1"
serde_with = { version = "2", features = ["base64"] }
termcolor = "1"
time = "0.1"
toml = "0.5"
