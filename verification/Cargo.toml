[package]
name = "vexide_panic"
version = "0.1.0"
edition = "2021"
publish = false

[dependencies]
pros-sys = "*"
vexide-core = "=0.1.0"
vexide-devices = "=0.1.0"
