[package]
name = "cryptocurrency"
version = "0.1.0"
edition = "2021"
publish = false

[dependencies]
bodyparser = "0.8"
exonum = "0.8"
failure = "0.1"
iron = "0.6"
router = "0.6"
serde = "1"
serde_derive = "1"
serde_json = "1"
