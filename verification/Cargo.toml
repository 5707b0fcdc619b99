[package]
name = "csv_rs"
version = "0.1.0"
edition = "2021"
publish = false

[dependencies]
codicon = "3"
log = "0.4"
rand = "0.8"
