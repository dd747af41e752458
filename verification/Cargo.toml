[package]
name = "yumete_core"
version = "0.1.0"
edition = "2021"
publish = false

[dependencies]
ropey = { version = "1.6", default-features = false, features = ["simd"] }
regex = "1"
unicode-segmentation = "1"
unicode-width = "0.2"
