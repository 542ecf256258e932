[package]
name = "torrust_tracker"
version = "0.1.0"
edition = "2021"
publish = false

[dependencies]
aquatic_udp_protocol = "*"
axum = "*"
log = "*"
rand = "*"
