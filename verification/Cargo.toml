[package]
name = "bitsy_dialog"
version = "0.1.0"
edition = "2021"
publish = false

[dependencies]
firefly-rust = { version = "=0.16.0", features = ["std"] }
bitsy-file = "=0.712.1"
bitsy-script = "=0.2.1"
