[package]
name = "lico"
version = "0.1.0"
edition = "2021"
publish = false

[dependencies]
unicode-ident = "*"
unicode-properties = "*"
rowan = "*"
compact_str = "*"
rustc-hash = "*"
smallvec = "*"
clap = { version = "*", features = ["derive"] }
