[package]
name = "geneloop_branding"
version = "0.1.0"
edition = "2021"
publish = false

[dependencies]
crossterm = "0.26"
palette = { version = "0.7", default-features = false, features = ["std"] }
supports-color = "2"
