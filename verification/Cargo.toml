[package]
name = "sicstus_rs"
version = "0.1.0"
edition = "2021"
publish = false
