[package]
name = "zkmatmul"
version = "0.1.0"
edition = "2021"
publish = false

[dependencies]
ark-bls12-381 = "*"
ark-ff = "*"
ark-groth16 = "*"
ark-relations = "*"
ark-r1cs-std = "*"
ark-snark = "*"
ark-std = "*"
