[package]
name = "sparrow"
version = "0.1.0"
edition = "2021"
publish = false

[dependencies]
anyhow = "=1.0.104"
crossterm = "=0.29.0"
itertools = "=0.14.0"
jagua-rs = { version = "=0.8.3", features = ["spp"] }
log = "=0.4.35"
ordered-float = "=5.5.1"
rand = "=0.10.3"
ratatui = "=0.30.2"
