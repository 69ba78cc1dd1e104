[package]
name = "net"
version = "0.1.0"
edition = "2021"
publish = false

[dependencies]
buffer = "*"
clap = "2"
linear-map = "*"
rmp = "*"
