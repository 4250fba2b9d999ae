[package]
name = "markdown_roundtrip"
version = "0.1.0"
edition = "2021"
publish = false

[dev-dependencies]
pulldown-cmark = { version = "0.8", default-features = false }
