[package]
name = "time868"
version = "0.1.0"
edition = "2021"
publish = false

[dependencies]
pico-args = "0.5"
rayon = "1"
tokio = { version = "1", features = ["net", "rt-multi-thread", "io-util"] }
