[package]
name = "caption_batch"
version = "0.1.0"
edition = "2021"
publish = false

[dependencies]
base64 = "0.22"
serde_json = "1"
clap = "4"
indicatif = "0.17"
log = "0.4"
reqwest = { version = "0.12", default-features = false, features = ["blocking"] }
