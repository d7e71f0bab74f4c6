[package]
name = "ream_networking"
version = "0.1.0"
edition = "2021"
publish = false

[dependencies]
alloy-rlp = "*"
ssz_types = "*"
ethereum_ssz = "*"
sha2 = "*"
hex = "*"
snap = "*"
unsigned-varint = "*"
rand = "0.8"
