[package]
name = "icinga_filter"
version = "0.1.0"
edition = "2021"
publish = false

[dependencies]
netstring = "*"
serde = "*"
serde_json = "*"
