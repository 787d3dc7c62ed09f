[package]
name = "dbusfs"
version = "0.1.0"
edition = "2021"
publish = false

[dependencies]
dbus = "=0.9.12"
fuse = "=0.3.1"
libc = "=0.2.190"
time = "=0.1.45"
users = "=0.11.0"
xml-rs = "=1.0.0"
