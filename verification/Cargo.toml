[package]
name = "slimeball-lib"
version = "0.1.0"
edition = "2021"
publish = false

[dependencies]
byteorder = "1"
fastnbt = "2"
zstd = "*"
eframe = { version = "0.31", default-features = false, features = ["glow", "default_fonts", "x11"] }
rfd = "*"
mimalloc = "*"
tracing = "0.1"
tracing-subscriber = { version = "0.3", features = ["env-filter"] }
