[package]
name = "sv39_core"
version = "0.1.0"
edition = "2021"
publish = false

[dependencies]
lazy_static = "1"
spin = "0.9"
uart_16550 = "0.3"
