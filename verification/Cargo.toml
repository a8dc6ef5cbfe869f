[package]
name = "sound_sampler"
version = "0.1.0"
edition = "2021"
publish = false

[dependencies]
hound = "3.5"
rand = "0.8"
rand_chacha = "0.3"
serde = { version = "1", features = ["derive"] }
serde_json = "1"
clap = { version = "4", features = ["derive"] }
