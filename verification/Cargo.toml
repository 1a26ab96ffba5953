[package]
name = "can"
version = "0.1.0"
edition = "2021"
publish = false

[dependencies]
chrono = "=0.4.45"
filetime = "=0.2.29"
libc = "=0.2.191"
optz = "=0.10.0"
urlencoding = "=2.1.3"
xdg = "=3.0.0"
