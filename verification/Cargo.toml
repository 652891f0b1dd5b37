[package]
name = "mimc_groth16"
version = "0.1.0"
edition = "2021"
publish = false

[dependencies]
base64 = "0.13"
bellman = "0.14"
bls12_381 = "0.8"
ff = "0.13"
rand = "0.8"
