[package]
name = "fawkes_plonk"
version = "0.1.0"
edition = "2021"
publish = false

[dependencies]
itertools = "*"
halo2_proofs = "*"
group = "*"
