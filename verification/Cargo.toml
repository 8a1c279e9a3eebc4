[package]
name = "rusty_racer"
version = "0.1.0"
edition = "2021"
publish = false

[dependencies]
libc = "0.2"
magnus = { version = "0.8", features = ["rb-sys"] }
rb-sys = "0.9"
v8 = "150"
