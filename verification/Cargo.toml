[package]
name = "iguana"
version = "0.1.0"
edition = "2021"
publish = false

[dependencies]
bitcoin-cash = "*"
bitcoin-cash-ecc = "*"
hex = "*"
thiserror = "*"
sha1 = "*"
sha2 = "*"
ripemd = "*"
