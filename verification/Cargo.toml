[package]
name = "field_emulation"
version = "0.1.0"
edition = "2021"
publish = false

[dependencies]
halo2-base = "=0.5.5"
plonky2 = "=0.2.2"
log = "=0.4.34"

[dev-dependencies]
rand = "=0.8.8"
