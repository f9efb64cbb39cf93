[package]
name = "zelbet"
version = "0.1.0"
edition = "2021"
publish = false

[dependencies]
bigint = "=4.4.3"
dusk-bls12_381 = { version = "=0.14.2", default-features = false }
dusk-bytes = "=0.1.7"
derive-hex = "=0.1.2"
