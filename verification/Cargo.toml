[package]
name = "piper_chat"
version = "0.1.0"
edition = "2021"
publish = false

[dependencies]
rand = "*"
anyhow = "*"
iroh = { version = "*", default-features = false }
iroh-blobs = { version = "*", default-features = false, features = ["fs-store"] }
iroh-gossip = { version = "*", default-features = false, features = ["net"] }
iroh-tickets = "*"
n0-future = "*"
postcard = "*"
serde = "*"
tokio = { version = "*", features = ["macros", "rt-multi-thread", "sync", "time", "fs"] }
