[package]
name = "yamama"
version = "0.1.0"
edition = "2021"
publish = false

[dependencies]
aes = "0.8"
ctr = "0.9"
hmac = "0.12"
sha1 = "0.10"
crc32fast = "1"
crc32c = "0.6"
rand = "0.9"
openssl = "0.10"
