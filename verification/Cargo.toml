[package]
name = "logic_tools"
version = "0.1.0"
edition = "2021"
publish = false

[dependencies]
petgraph = "=0.6.5"
bevy = { version = "=0.13.2", default-features = false }
bevy-trait-query = "0.5"
