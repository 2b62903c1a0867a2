[package]
name = "unitypackage_util"
version = "0.1.0"
edition = "2021"
publish = false

[dependencies]
base64 = "0.21"
clap = { version = "4", features = ["derive"] }
exitcode = "1"
flate2 = "1"
infer = "*"
regex = "1"
serde = { version = "1", features = ["derive"] }
serde_json = "1"
serde_yaml = "0.9"
tar = "0.4"
walkdir = "2"
xxhash-rust = { version = "0.8", features = ["xxh64"] }
