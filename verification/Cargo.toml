[package]
name = "rust64"
version = "0.1.0"
edition = "2021"
publish = false

[dependencies]
emulator_6502 = { version = "=1.1.0", features = ["implementation_transparency"] }
minifb = "=0.29.0"
