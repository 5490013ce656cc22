[package]
name = "catnip"
version = "0.1.0"
edition = "2021"
publish = false

[dependencies]
bit-iter = "*"
byteorder = "1"
crc = "1.8"
futures = "0.3"
slab = "0.4"
unicycle = { version = "*", default-features = false }
