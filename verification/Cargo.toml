[package]
name = "parakeet_crypto"
version = "0.1.0"
edition = "2021"
publish = false

[dependencies]
md-5 = "=0.10.6"
base64 = "=0.13.1"
tc_tea = "=0.1.4"
flate2 = "=1.1.10"
argh = "=0.1.19"
hex = "=0.4.3"
thiserror = "=1.0.69"
byteorder = "=1.5.0"
