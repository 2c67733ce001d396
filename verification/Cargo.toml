[package]
name = "arcdps_example_plugin"
version = "0.1.0"
edition = "2021"
publish = false

[dependencies]
arcdps = "*"
log = "0.4"
