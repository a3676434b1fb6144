[package]
name = "openvm-hip"
version = "0.1.0"
edition = "2021"
publish = false

[dependencies]
cubecl-hip-sys = "*"
thiserror = "*"
tracing = "*"
bytesize = "*"
libc = "*"
ctor = "0.2"
metrics = "*"
glob = "*"
cc = "*"
