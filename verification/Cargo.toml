[package]
name = "rsmarkdown"
version = "0.1.0"
edition = "2021"
publish = false

[dependencies]
pulldown-cmark = { version = "0.12", default-features = false }
unicode-width = "0.2"
