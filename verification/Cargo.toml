[package]
name = "nom"
version = "0.1.0"
edition = "2021"
publish = false

[dependencies]
proptest = "1"
quickcheck = "1"
crabcheck = "*"
hegeltest = "0.3.7"
