[package]
name = "kazuos"
version = "0.1.0"
edition = "2021"
publish = false

[dependencies]
ab_glyph = { version = "0.2", default-features = false, features = ["libm"] }
