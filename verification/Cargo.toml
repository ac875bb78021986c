[package]
name = "event_dispatcher"
version = "0.1.0"
edition = "2021"
publish = false

[dependencies]
parking_lot = "*"
wgpu = { version = "*", default-features = false }
zerocopy = { version = "*", features = ["derive"] }
