[package]
name = "aquatic_ws"
version = "0.1.0"
edition = "2021"
publish = false

[dependencies]
hashbrown = "*"
rand = { version = "0.8", features = ["small_rng"] }
flume = "*"
parking_lot = "*"
