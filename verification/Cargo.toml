[package]
name = "lynchpin"
version = "0.1.0"
edition = "2021"
publish = false

[dependencies]
unicode-width = "0.2"
unicode-script = "0.5"
unicode-math-class = "0.1"
crossterm = { version = "0.28", default-features = false }
