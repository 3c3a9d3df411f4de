[package]
name = "falbe"
version = "0.1.0"
edition = "2021"
publish = false

[dependencies]
rustc_apfloat = "=0.2.3"
softfp = "=0.1.0"
