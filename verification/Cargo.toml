[package]
name = "nes_console"
version = "0.1.0"
edition = "2021"
publish = false

[dependencies]
gilrs = "0.11"
