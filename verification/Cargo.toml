[package]
name = "gix_tix"
version = "0.1.0"
edition = "2021"
publish = false

[dependencies]
anyhow = "=1.0.104"
gix = "0.90"
ratatui = { version = "=0.30.2", default-features = false }
tracing = "=0.1.44"
