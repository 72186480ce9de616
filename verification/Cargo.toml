[package]
name = "meta_hybrid"
version = "0.1.0"
edition = "2021"
publish = false

[dependencies]
anyhow = "1"
clap = { version = "4", features = ["derive"] }
extattr = "*"
hole-punch = "*"
libc = "0.2"
log = "0.4"
mimalloc = "*"
nix = { version = "*", features = ["ioctl"] }
procfs = "*"
rustix = { version = "*", features = ["fs", "mount", "process"] }
serde = { version = "1", features = ["derive"] }
serde_json = "1"
toml = "*"
walkdir = "2"
