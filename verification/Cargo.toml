[package]
name = "rabe"
version = "0.1.0"
edition = "2021"
publish = false

[dependencies]
rabe-bn = "*"
rand = "0.8"
permutation = "*"
aes-gcm = "*"
sha3 = "*"
