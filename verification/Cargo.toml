[package]
name = "rpcperf"
version = "0.1.0"
edition = "2021"
publish = false

[dependencies]
byteorder = "1"
crc = "1"
pad = "0.1"
rand = "0.4"
time = "0.1"
