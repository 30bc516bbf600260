[package]
name = "webrtc"
version = "0.1.0"
edition = "2021"
publish = false

[dependencies]
aes = "*"
ctr = "*"
hmac = "*"
sha1 = "*"
sha2 = "*"
subtle = "*"
crc = "*"
rand = "*"
url = "*"
ring = "*"
x509-parser = "*"
