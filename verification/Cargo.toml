[package]
name = "tari_dan_core"
version = "0.1.0"
edition = "2021"
publish = false

[dependencies]
async-trait = "0.1"
derive-error = "0.0.5"
tari_comms = "*"
tari_utilities = "*"
tokio = { version = "1", default-features = false, features = ["sync"] }
