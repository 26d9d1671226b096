[package]
name = "rustic_stack"
version = "0.1.0"
edition = "2021"
publish = false

[dependencies]
ifstructs = "*"
lazy_static = "1"
libc = "0.2"
