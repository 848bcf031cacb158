[package]
name = "asciinema"
version = "0.1.0"
edition = "2021"
publish = false

[dependencies]
regex = "=1.13.1"
anyhow = "=1.0.104"
clap = { version = "=4.6.7", features = ["derive"] }
nix = { version = "=0.31.3", features = ["fs", "process", "signal", "term"] }
tokio = { version = "=1.54.1", features = ["rt-multi-thread", "time", "sync"] }
zstd = "=0.14.3"
