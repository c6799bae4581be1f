[package]
name = "backuwup"
version = "0.1.0"
edition = "2021"
publish = false

[dependencies]
aes-gcm = "=0.10.3"
hex = "=0.4.3"
zstd = { version = "0.13", features = ["experimental"] }
hkdf = "=0.12.4"
sha2 = "=0.10.9"
getrandom = "=0.2.17"
blake3 = "=1.8.7"
ed25519-dalek = "=1.0.1"
rand_chacha = "=0.3.1"
fastcdc = "=3.2.1"
filetime = "=0.2.29"
memmap2 = "=0.5.10"
pathdiff = "=0.2.3"

[dev-dependencies]
bincode = "=1.3.3"
