[package]
name = "amf_store"
version = "0.1.0"
edition = "2021"
publish = false

[dependencies]
bytemuck = "*"
flash-lso = "=0.7.0"
url = "=2.5.8"
