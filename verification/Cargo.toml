[package]
name = "openmines_server"
version = "0.1.0"
edition = "2021"
publish = false

[dependencies]
sha2 = "0.10"
md5 = "0.7"
rand = "0.9"
governor = "0.8"
