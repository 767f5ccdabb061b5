[package]
name = "kurtosis_core"
version = "0.1.0"
edition = "2021"
publish = false

[dependencies]
sha2 = "0.10"
prost = "0.11"
prost-types = "0.11"
