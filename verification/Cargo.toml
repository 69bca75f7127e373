[package]
name = "cmip_records"
version = "0.1.0"
edition = "2021"
publish = false

[dependencies]
rasn = "*"
