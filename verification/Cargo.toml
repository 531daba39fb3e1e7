[package]
name = "serde_eetf"
version = "0.1.0"
edition = "2021"
publish = false

[dependencies]
eetf = "*"
heck = "*"
num-bigint = "*"
num-traits = "*"
serde = "*"
