[package]
name = "tg_rcore_graphics"
version = "0.1.0"
edition = "2021"
publish = false

[dependencies]
virtio-drivers = "=0.2.0"
tg-sbi = "=0.4.2-preview.1"
