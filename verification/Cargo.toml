[package]
name = "chunk_decode"
version = "0.1.0"
edition = "2021"
publish = false

[dependencies]
named-binary-tag = "*"
