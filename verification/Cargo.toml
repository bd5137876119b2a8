[package]
name = "blurhash_batch"
version = "0.1.0"
edition = "2021"
publish = false

[dependencies]
blurhash = "0.2"
image = { version = "0.25", default-features = false, features = ["jpeg", "png"] }
rayon = "1"
serde_json = "1"
log = "0.4"
env_logger = "0.11"
