[package]
name = "sscipher"
version = "0.1.0"
edition = "2021"
publish = false

[dependencies]
aes = "=0.9.3"
aria = "=0.2.0"
camellia = "=0.2.1"
cast5 = "=0.12.0"
cast6 = "=0.2.0"
cipher = "=0.5.2"
lea = "=0.5.4"
rand = "=0.10.3"
rayon = "=1.12.0"
rc5 = "=0.1.0"
serpent = "=0.6.0"
smallvec = "=1.16.4"
