[package]
name = "river"
version = "0.1.0"
edition = "2021"
publish = false

[dependencies]
fdt = "0.1"
log = "0.4"
owo-colors = "3"
sbi = "0.2"
