[package]
name = "fretscope"
version = "0.1.0"
edition = "2021"
publish = false

[dependencies]
pitch-detection = "*"
atomic_float = "1"
