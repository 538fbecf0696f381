[package]
name = "easyfibers"
version = "0.6.1"
edition = "2021"
publish = false

[dependencies]
byteorder = "=1.5.0"
context = "=2.1.0"
core-foundation = "0.10"
core-foundation-sys = "0.8"
libc = "0.2"
mio = "=0.6.23"
native-tls = "=0.2.18"
rand = "=0.3.23"
slab = "=0.4.12"
