[package]
name = "creature_sim"
version = "0.1.0"
edition = "2021"
publish = false

[dependencies]
async-channel = "2"
bevy = { version = "0.13", default-features = false }
