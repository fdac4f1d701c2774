[package]
name = "bitflate-rs"
version = "0.2.0"
edition = "2021"
publish = false

[dependencies]
syn = { version = "2", features = ["full"] }
quote = "1"
proc-macro2 = "1"
proc-macro-crate = "3"
bilge = "*"
bytemuck = { version = "1", features = ["derive"] }
