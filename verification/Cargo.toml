[package]
name = "ber_encode"
version = "0.1.0"
edition = "2021"

[dependencies]
bytes = "1"
