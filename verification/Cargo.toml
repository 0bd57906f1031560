[package]
name = "bootcore"
version = "0.1.0"
edition = "2021"
publish = false

[dev-dependencies]
xmas-elf = "=0.10.0"
