[package]
name = "procmon"
version = "0.1.0"
edition = "2021"
publish = false

[dependencies]
rhai = "1"
chrono = "0.4"
sysinfo = "0.29"
procfs = "0.16"
libc = "0.2"
hostname = "0.3"
