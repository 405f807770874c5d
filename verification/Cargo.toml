[package]
name = "config_to_rs"
version = "0.1.0"
edition = "2021"
publish = false

[dependencies]
convert_case = "=0.12.0"
saphyr = "=0.0.12"
