[package]
name = "uart_matmul"
version = "0.1.0"
edition = "2021"
publish = false

[dependencies]
libc = "0.2"
nalgebra = "0.33"
