[package]
name = "minimacs"
version = "0.1.0"
edition = "2021"
publish = false

[dependencies]
ropey = { version = "=1.6.1", default-features = false }
unicode-segmentation = "=1.13.3"
unicode-width = "=0.2.3"
sha2 = "=0.11.1"
crossterm = "=0.29.0"
anyhow = "=1.0.104"
tempfile = "=3.27.0"
arboard = { version = "3", default-features = false }
